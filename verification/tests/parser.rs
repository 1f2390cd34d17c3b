use diff_man::assemble::Assembler;
use diff_man::diff::{
    Change, Diff, DiffComposition, DiffFormat, DiffHunk, Line, LineChange,
};
use diff_man::parser::ParserState as S;
use diff_man::parser::{ParseErrorKind, Parser, ParserState};
use diff_man::DiffManager;

const SHORT_TEST_DATA: &str = r#"diff --git a/tests/vm.rs b/tests/vm.rs
index 90d5af1..30044cb 100644
--- a/tests/vm.rs
+++ b/tests/vm.rs
@@ -16,7 +16,9 @@ fn run_vm_test(tests: Tests<Option<Object>>) {
         let program = Parser::new(lexer).parse().unwrap();
 
         let mut comp = Compiler::create().unwrap();
-        comp.compile(program);
+        if let Err(e) = comp.compile(program) {
+            panic!("Compile error {:?}", e);
+        }
         let bytecode = comp.bytecode().unwrap();
 
         println!("Bytecode\n{}", bytecode.to_string());
@@ -25,7 +27,7 @@ fn run_vm_test(tests: Tests<Option<Object>>) {
 
         while vm.is_runable() {
             if let Err(err) = vm.run_single() {
-                eprintln!("Error {:?}", err);
+                panic!("VmError {:?}", err)
             }
         }
         println!("VM STACK:\n {}", vm.stack_to_string());
@@ -262,8 +264,7 @@ let no_return = fn() { };no_return() no_return() no_return() no_return()
 
     tests.add((
         "
-let fun = fn() { 10 + 20 };
-fun()
+let fun = fn() { 10 + 20 }; fun()
 ",
         Some(Object::Int(Int { value: 30 })),
     ));
"#;

fn next_state(tag: &Line) -> ParserState {
    match tag {
        Line::Command => ParserState::Command,
        Line::Index => ParserState::Index,
        Line::OrignPath => ParserState::OriginPath,
        Line::NewPath => ParserState::NewPath,
        Line::Hunk => ParserState::Hunk,
        Line::LineChange(change_kind) => ParserState::LineChange(*change_kind),
        Line::Unknown => panic!("Unknown line start"),
    }
}

#[test]
fn test_parse_linestart() {
    let mut state = ParserState::Init;
    for line in SHORT_TEST_DATA.lines() {
        let tag = Parser::parse_line_kind(&state, line);
        state = next_state(&tag);

        println!("[S:{:?}] [T:{:?}] -- L>{}", &state, &tag, &line);
    }
}

#[test]
fn test_parse_udiff() {
    let com = Parser::parse_git_udiff(SHORT_TEST_DATA).unwrap();
    println!("{:#?}", com);
}

#[test]
fn parse_builds_the_model_of_the_sample() {
    let com = DiffManager::parse(&DiffFormat::GitUdiff, SHORT_TEST_DATA).unwrap();
    assert_eq!(com.format, DiffFormat::GitUdiff);
    assert_eq!(com.diff.len(), 1);
    let diff = &com.diff[0];
    assert_eq!(diff.command.as_deref(), Some("diff --git a/tests/vm.rs b/tests/vm.rs"));
    assert_eq!(diff.index.as_deref(), Some("90d5af1..30044cb 100644"));
    assert_eq!(diff.path, "tests/vm.rs");
    assert_eq!(diff.hunk.len(), 3);

    let first = &diff.hunk[0];
    assert_eq!((first.old_line, first.old_len, first.new_line, first.new_len), (16, 7, 16, 9));
    assert_eq!(first.change.len(), 10);
    assert_eq!(first.change[0].kind, Change::Default);
    assert_eq!(first.change[0].content, "        let program = Parser::new(lexer).parse().unwrap();");
    assert_eq!(first.change[1].kind, Change::Default);
    assert_eq!(first.change[1].content, "");
    assert_eq!(first.change[3].kind, Change::Deleted);
    assert_eq!(first.change[3].content, "        comp.compile(program);");
    assert_eq!(first.change[4].kind, Change::Added);
    assert_eq!(first.change[4].content, "        if let Err(e) = comp.compile(program) {");

    let second = &diff.hunk[1];
    assert_eq!((second.old_line, second.old_len, second.new_line, second.new_len), (25, 7, 27, 7));
    assert_eq!(second.change.len(), 8);

    let third = &diff.hunk[2];
    assert_eq!((third.old_line, third.old_len, third.new_line, third.new_len), (262, 8, 264, 7));
    assert_eq!(third.change.len(), 9);
    assert_eq!(third.change[8].content, "    ));");
}

#[test]
fn classifier_follows_the_table() {
    let kind = |state: ParserState, line: &str| Parser::parse_line_kind(&state, line);

    assert_eq!(kind(S::Init, "diff --git a/x b/x"), Line::Command);
    assert_eq!(kind(S::Init, "diffuse"), Line::Command);
    assert_eq!(kind(S::Init, "index 1..2"), Line::Unknown);
    assert_eq!(kind(S::Init, ""), Line::Unknown);

    assert_eq!(kind(S::Command, "index 1..2"), Line::Index);
    assert_eq!(kind(S::Command, "--- a/x"), Line::OrignPath);
    assert_eq!(kind(S::Command, "+++ b/x"), Line::Unknown);
    assert_eq!(kind(S::Command, "diff --git a/x b/x"), Line::Unknown);

    assert_eq!(kind(S::Index, "--- a/x"), Line::OrignPath);
    assert_eq!(kind(S::Index, "index 1..2"), Line::Unknown);

    assert_eq!(kind(S::OriginPath, "+++ b/x"), Line::NewPath);
    assert_eq!(kind(S::OriginPath, "--- a/x"), Line::Unknown);

    assert_eq!(kind(S::NewPath, "@@ -1,2 +1,2 @@"), Line::Hunk);
    assert_eq!(kind(S::NewPath, "+added"), Line::Unknown);

    assert_eq!(kind(S::Hunk, "+added"), Line::LineChange(Change::Added));
    assert_eq!(kind(S::Hunk, " context"), Line::LineChange(Change::Default));
    assert_eq!(kind(S::Hunk, "-deleted"), Line::LineChange(Change::Deleted));
    assert_eq!(kind(S::Hunk, "diff --git a/x b/x"), Line::Unknown);
    assert_eq!(kind(S::Hunk, "@@ -1,2 +1,2 @@"), Line::Unknown);
    assert_eq!(kind(S::Hunk, "--- a/x"), Line::LineChange(Change::Deleted));
    assert_eq!(kind(S::Hunk, ""), Line::Unknown);
    assert_eq!(kind(S::Hunk, "\u{e9}t\u{e9}"), Line::Unknown);

    for last in [Change::Added, Change::Default, Change::Deleted] {
        assert_eq!(kind(S::LineChange(last), "diff --git a/x b/x"), Line::Command);
        assert_eq!(kind(S::LineChange(last), "index 1..2"), Line::Index);
        assert_eq!(kind(S::LineChange(last), "--- a/x"), Line::OrignPath);
        assert_eq!(kind(S::LineChange(last), "@@ -1,2 +1,2 @@"), Line::Hunk);
        assert_eq!(kind(S::LineChange(last), "+++ b/x"), Line::LineChange(Change::Added));
        assert_eq!(kind(S::LineChange(last), "-- two dashes"), Line::LineChange(Change::Deleted));
        assert_eq!(kind(S::LineChange(last), " context"), Line::LineChange(Change::Default));
        assert_eq!(kind(S::LineChange(last), "\\ No newline at end of file"), Line::Unknown);
        assert_eq!(kind(S::LineChange(last), ""), Line::Unknown);
    }
}

fn content(line: &str, kind: Line) -> Result<&str, diff_man::parser::ParseError> {
    Parser::parse_line_content(line, &kind)
}

#[test]
fn content_is_the_line_without_its_marker() {

    assert_eq!(content("diff --git a/x b/x", Line::Command).unwrap(), "diff --git a/x b/x");
    assert_eq!(content("index 90d5af1..30044cb 100644", Line::Index).unwrap(), "90d5af1..30044cb 100644");
    assert_eq!(content("--- a/tests/vm.rs", Line::OrignPath).unwrap(), "a/tests/vm.rs");
    assert_eq!(content("+++ b/tests/vm.rs", Line::NewPath).unwrap(), "b/tests/vm.rs");
    assert_eq!(content("@@ -16,7 +16,9 @@ fn run() {", Line::Hunk).unwrap(), "-16,7 +16,9");
    assert_eq!(content("@@ -1,2 +3,4 @@", Line::Hunk).unwrap(), "-1,2 +3,4");
    assert_eq!(content("@@ -1,2 +3,4 @@ a @@ b", Line::Hunk).unwrap(), "-1,2 +3,4");
    assert_eq!(content("+added", Line::LineChange(Change::Added)).unwrap(), "added");
    assert_eq!(content(" ", Line::LineChange(Change::Default)).unwrap(), "");
    assert_eq!(content("-\u{e9}t\u{e9}", Line::LineChange(Change::Deleted)).unwrap(), "\u{e9}t\u{e9}");
}

#[test]
fn content_reports_the_missing_marker() {
    let failure = |line: &str, kind: Line| content(line, kind).unwrap_err();

    let e = failure("index90d5af1", Line::Index);
    assert_eq!(e.kind, ParseErrorKind::ExpectationFailed);
    assert_eq!(e.reason, "expect line start with `index `");
    assert_eq!(e.line, "index90d5af1");

    assert_eq!(failure("---a/x", Line::OrignPath).reason, "expect line start with `--- `");
    assert_eq!(failure("+++b/x", Line::NewPath).reason, "expect line start with `+++ `");
    assert_eq!(failure("@@ -1,2 +3,4", Line::Hunk).reason, "cannot find hunk end with ` @@`");
    assert_eq!(failure("@@-1,2 +3,4 @@", Line::Hunk).reason, "expect line start with `@@ `");
    assert_eq!(failure("@@ @@", Line::Hunk).reason, "expect line start with `@@ `");
}

fn parse_error(src: &str) -> diff_man::parser::ParseError {
    Parser::parse_git_udiff(src).unwrap_err()
}

const HEAD: &str = "diff --git a/f b/f\n--- a/f\n+++ b/f\n";

#[test]
fn unknown_line_start_aborts_the_parse() {
    let e = parse_error("hello\n");
    assert_eq!(e.kind, ParseErrorKind::InvalidLineStart);
    assert_eq!(e.reason, "line starting with invalid token");
    assert_eq!(e.line, "hello");

    let e = parse_error(&format!("{HEAD}@@ -1,1 +1,1 @@\n a\n\\ No newline at end of file\n"));
    assert_eq!(e.kind, ParseErrorKind::InvalidLineStart);
    assert_eq!(e.line, "\\ No newline at end of file");

    let e = parse_error(&format!("{HEAD}@@ -1,1 +1,1 @@\n\n a\n"));
    assert_eq!(e.kind, ParseErrorKind::InvalidLineStart);
    assert_eq!(e.line, "");

    let e = parse_error("diff --git a/f b/f\n+++ b/f\n");
    assert_eq!(e.kind, ParseErrorKind::InvalidLineStart);
    assert_eq!(e.line, "+++ b/f");
}

#[test]
fn empty_input_is_an_error() {
    let e = parse_error("");
    assert_eq!(e.kind, ParseErrorKind::ExpectationFailed);
    assert_eq!(e.reason, "there is no diff_cur at end");
    assert_eq!(e.line, "");
}

#[test]
fn command_paths_must_agree() {
    let e = parse_error("diff --git a/one b/two\n");
    assert_eq!(e.kind, ParseErrorKind::ExpectationFailed);
    assert_eq!(e.reason, "file path a and b are different");
    assert_eq!(e.line, "diff --git a/one b/two");

    let e = parse_error("diff a/one b/one\n");
    assert_eq!(e.kind, ParseErrorKind::ExpectationFailed);
    assert_eq!(e.reason, "lines not starting with `diff --git ` or cannot split command's arguments");

    let e = parse_error("diff --git a/one\n");
    assert_eq!(e.kind, ParseErrorKind::ExpectationFailed);
    assert_eq!(e.reason, "lines not starting with `diff --git ` or cannot split command's arguments");

    let e = parse_error("diff --git one b/one\n");
    assert_eq!(e.reason, "expect to path_a start with `a/`");

    let e = parse_error("diff --git a/one one\n");
    assert_eq!(e.reason, "expect to path_a start with `b/`");

    let e = parse_error("diff --git a/with space b/with space\n");
    assert_eq!(e.kind, ParseErrorKind::ExpectationFailed);
    assert_eq!(e.reason, "expect to path_a start with `b/`");
}

#[test]
fn header_paths_must_agree_with_the_command() {
    let e = parse_error("diff --git a/f b/f\n--- a/g\n");
    assert_eq!(e.kind, ParseErrorKind::ExpectationFailed);
    assert_eq!(e.reason, "diff path and origin path is different, [diff: f] [origin: g]");
    assert_eq!(e.line, "--- a/g");

    let e = parse_error("diff --git a/f b/f\n--- a/f\n+++ b/g\n");
    assert_eq!(e.kind, ParseErrorKind::ExpectationFailed);
    assert_eq!(e.reason, "diff path and new path is different, [diff: f] [new: g]");
    assert_eq!(e.line, "+++ b/g");

    let e = parse_error("diff --git a/f b/f\n--- f\n");
    assert_eq!(e.kind, ParseErrorKind::ExpectationFailed);
    assert_eq!(e.reason, "old file path not start with `a/`");

    let e = parse_error("diff --git a/f b/f\n--- a/f\n+++ f\n");
    assert_eq!(e.kind, ParseErrorKind::ExpectationFailed);
    assert_eq!(e.reason, "old file path not start with `b/`");

    let e = parse_error("diff --git a/f b/f\n--- /dev/null\n");
    assert_eq!(e.kind, ParseErrorKind::ExpectationFailed);
}

#[test]
fn index_may_be_set_once() {
    let com = Parser::parse_git_udiff(&format!(
        "diff --git a/f b/f\nindex 1..2 100644\n--- a/f\n+++ b/f\n@@ -1,1 +1,1 @@\n a\n"
    ))
    .unwrap();
    assert_eq!(com.diff[0].index.as_deref(), Some("1..2 100644"));

    let com = Parser::parse_git_udiff(&format!("{HEAD}@@ -1,1 +1,1 @@\n a\nindex late\n--- a/f\n"))
        .unwrap();
    assert_eq!(com.diff[0].index.as_deref(), Some("late"));

    let e = parse_error(
        "diff --git a/f b/f\nindex 1..2\n--- a/f\n+++ b/f\n@@ -1,1 +1,1 @@\n a\nindex 3..4\n",
    );
    assert_eq!(e.kind, ParseErrorKind::InvalidLine);
    assert_eq!(e.reason, "there is index in current diff");
    assert_eq!(e.line, "index 3..4");
}

#[test]
fn hunk_header_must_hold_four_numbers() {
    let reason = |header: &str| {
        let e = parse_error(&format!("{HEAD}{header}\n"));
        assert_eq!(e.kind, ParseErrorKind::ExpectationFailed);
        assert_eq!(e.line, header);
        e.reason
    };
    assert_eq!(reason("@@ -1,2 @@"), "there is no space in hunk line");
    assert_eq!(reason("@@ -1 +1,2 @@"), "cannot split hunk old range with `,`");
    assert_eq!(reason("@@ -1,2 +1 @@"), "cannot split hunk new range with `,`");
    assert_eq!(reason("@@ 1,2 +1,2 @@"), "cannot strip `-` of old_line");
    assert_eq!(reason("@@ -x,2 +1,2 @@"), "cannot parse old_line to usize");
    assert_eq!(reason("@@ -,2 +1,2 @@"), "cannot parse old_line to usize");
    assert_eq!(reason("@@ -1,-2 +1,2 @@"), "cannot parse old_len to usize");
    assert_eq!(reason("@@ -1,2 1,2 @@"), "cannot strip `+` of new_line");
    assert_eq!(reason("@@ -1,2 +1x,2 @@"), "cannot parse new_line to usize");
    assert_eq!(reason("@@ -1,2 +1,2 3 @@"), "cannot parse new_len to usize");
    assert_eq!(reason("@@ -1,2 +1, @@"), "cannot parse new_len to usize");
    assert_eq!(
        reason("@@ -99999999999999999999999999999999999999999,2 +1,2 @@"),
        "cannot parse old_line to usize"
    );
    assert_eq!(reason("@@ -1,2 +1,2"), "cannot find hunk end with ` @@`");
    assert_eq!(reason("@@-1,2 +1,2 @@"), "expect line start with `@@ `");
}

#[test]
fn hunk_header_numbers_are_read_in_decimal() {
    let com = Parser::parse_git_udiff(&format!("{HEAD}@@ -007,+2 ++10,0 @@ trailing text @@\n"))
        .unwrap();
    let hunk = &com.diff[0].hunk[0];
    assert_eq!((hunk.old_line, hunk.old_len, hunk.new_line, hunk.new_len), (7, 2, 10, 0));
    assert!(hunk.change.is_empty());

    let max = usize::MAX;
    let com = Parser::parse_git_udiff(&format!("{HEAD}@@ -{max},0 +0,{max} @@\n")).unwrap();
    let hunk = &com.diff[0].hunk[0];
    assert_eq!((hunk.old_line, hunk.old_len, hunk.new_line, hunk.new_len), (max, 0, 0, max));
}

#[test]
fn diff_without_hunks_is_accepted() {
    let com = Parser::parse_git_udiff("diff --git a/f b/f\n").unwrap();
    assert_eq!(com.diff.len(), 1);
    assert_eq!(com.diff[0].path, "f");
    assert_eq!(com.diff[0].index, None);
    assert!(com.diff[0].hunk.is_empty());
}

#[test]
fn lines_may_end_with_carriage_return_and_line_feed() {
    let com = Parser::parse_git_udiff(
        "diff --git a/f b/f\r\n--- a/f\r\n+++ b/f\r\n@@ -1,1 +1,1 @@\r\n-a\r\n+b",
    )
    .unwrap();
    assert_eq!(com.diff[0].path, "f");
    let hunk = &com.diff[0].hunk[0];
    assert_eq!(hunk.change.len(), 2);
    assert_eq!(hunk.change[0].content, "a");
    assert_eq!(hunk.change[1].content, "b");
}

#[test]
fn each_diff_keeps_its_own_hunks() {
    let src = "diff --git a/one b/one\n--- a/one\n+++ b/one\n@@ -1,1 +1,1 @@\n-a\n+b\n@@ -5,1 +5,1 @@\n-c\n+d\ndiff --git a/two b/two\n--- a/two\n+++ b/two\n@@ -2,1 +2,1 @@\n-e\n+f\n";
    let com = Parser::parse_git_udiff(src).unwrap();
    assert_eq!(com.diff.len(), 2);
    assert_eq!(com.diff[0].path, "one");
    assert_eq!(com.diff[1].path, "two");
    let starts =
        |i: usize| com.diff[i].hunk.iter().map(|h| h.old_line).collect::<Vec<usize>>();
    assert_eq!(starts(0), vec![1, 5]);
    assert_eq!(starts(1), vec![2]);
}

#[test]
fn two_files_of_one_hunk_each() {
    let src = "diff --git a/x b/x\n--- a/x\n+++ b/x\n@@ -1,1 +1,1 @@\n-a\n+b\ndiff --git a/y b/y\n--- a/y\n+++ b/y\n@@ -1,1 +1,1 @@\n-c\n+d\n";
    let com = Parser::parse_git_udiff(src).unwrap();
    let replace = |old: &str, new: &str| DiffHunk {
        old_line: 1,
        old_len: 1,
        new_line: 1,
        new_len: 1,
        change: vec![body(Change::Deleted, old), body(Change::Added, new)],
    };
    let file = |path: &str, hunk: DiffHunk| Diff {
        command: Some(format!("diff --git a/{path} b/{path}")),
        index: None,
        path: path.to_string(),
        hunk: vec![hunk],
    };
    assert_eq!(
        com,
        DiffComposition {
            format: DiffFormat::GitUdiff,
            diff: vec![file("x", replace("a", "b")), file("y", replace("c", "d"))],
        }
    );
}

#[test]
fn a_command_cannot_follow_a_command() {
    let src = "diff --git a/x b/x\n--- a/x\n+++ b/x\n@@ -1,1 +1,1 @@\n-a\ndiff --git a/y b/y\ndiff --git a/z b/z\n";
    let e = Parser::parse_git_udiff(src).unwrap_err();
    assert_eq!(e.kind, ParseErrorKind::InvalidLineStart);
    assert_eq!(e.line, "diff --git a/z b/z");
}

#[test]
fn each_kind_of_line_leaves_its_state() {
    for from in [S::Init, S::Hunk, S::LineChange(Change::Added)] {
        assert_eq!(from.after(Line::Command), S::Command);
        assert_eq!(from.after(Line::Index), S::Index);
        assert_eq!(from.after(Line::OrignPath), S::OriginPath);
        assert_eq!(from.after(Line::NewPath), S::NewPath);
        assert_eq!(from.after(Line::Hunk), S::Hunk);
        assert_eq!(
            from.after(Line::LineChange(Change::Deleted)),
            S::LineChange(Change::Deleted)
        );
        assert_eq!(from.after(Line::Unknown), from);
    }
}

fn feed(assembler: &mut Assembler, line: &str) -> Result<(), diff_man::parser::ParseError> {
    let chars: Vec<char> = line.chars().collect();
    assembler.step(&chars)
}

#[test]
fn the_assembler_takes_one_line_at_a_time() {
    let mut assembler = Assembler::new();
    assert_eq!(assembler.state, S::Init);
    feed(&mut assembler, "diff --git a/f b/f").unwrap();
    assert_eq!(assembler.state, S::Command);
    assert_eq!(assembler.diff.as_ref().unwrap().path, "f");
    feed(&mut assembler, "--- a/f").unwrap();
    feed(&mut assembler, "+++ b/f").unwrap();
    feed(&mut assembler, "@@ -3,1 +3,2 @@").unwrap();
    assert_eq!(assembler.state, S::Hunk);
    assert!(assembler.diff.as_ref().unwrap().hunk.is_empty());
    feed(&mut assembler, " kept").unwrap();
    feed(&mut assembler, "+new").unwrap();
    assert_eq!(assembler.state, S::LineChange(Change::Added));
    assert_eq!(assembler.hunk.as_ref().unwrap().change.len(), 2);

    let e = feed(&mut assembler, "?").unwrap_err();
    assert_eq!(e.kind, ParseErrorKind::InvalidLineStart);
    assert_eq!(assembler.state, S::LineChange(Change::Added));
    assert_eq!(assembler.hunk.as_ref().unwrap().change.len(), 2);

    let e = feed(&mut assembler, "@@ -x,1 +1,1 @@").unwrap_err();
    assert_eq!(e.kind, ParseErrorKind::ExpectationFailed);
    assert_eq!(assembler.state, S::LineChange(Change::Added));
    assert!(assembler.diff.as_ref().unwrap().hunk.is_empty());
    assert!(assembler.hunk.is_some());

    let com = assembler.finish().unwrap();
    assert_eq!(com.diff.len(), 1);
    assert_eq!(com.diff[0].hunk.len(), 1);
    assert_eq!(com.diff[0].hunk[0].change[1].content, "new");
}

#[test]
fn an_assembler_without_a_diff_cannot_finish() {
    let e = Assembler::new().finish().unwrap_err();
    assert_eq!(e.kind, ParseErrorKind::ExpectationFailed);
    assert_eq!(e.reason, "there is no diff_cur at end");
}

/// The text that stands for a diff in the grammar.
fn text_of(diff: &Diff) -> String {
    let mut text = format!("diff --git a/{0} b/{0}\n", diff.path);
    if let Some(index) = &diff.index {
        text += &format!("index {index}\n");
    }
    text += &format!("--- a/{0}\n+++ b/{0}\n", diff.path);
    for hunk in &diff.hunk {
        text += &format!(
            "@@ -{},{} +{},{} @@\n",
            hunk.old_line, hunk.old_len, hunk.new_line, hunk.new_len
        );
        for change in &hunk.change {
            let sign = match change.kind {
                Change::Added => '+',
                Change::Default => ' ',
                Change::Deleted => '-',
            };
            text += &format!("{sign}{}\n", change.content);
        }
    }
    text
}

fn body(kind: Change, content: &str) -> LineChange {
    LineChange { kind, content: content.to_string() }
}

#[test]
fn a_diff_in_the_grammar_is_read_as_that_diff() {
    let mut diff = Diff {
        command: Some("diff --git a/src/lib.rs b/src/lib.rs".to_string()),
        index: Some("1a2b3c4..5d6e7f8 100644".to_string()),
        path: "src/lib.rs".to_string(),
        hunk: vec![
            DiffHunk {
                old_line: 1,
                old_len: 3,
                new_line: 1,
                new_len: 3,
                change: vec![
                    body(Change::Deleted, "-- begins with dashes"),
                    body(Change::Added, "++ begins with pluses"),
                    body(Change::Default, "diff is no keyword here"),
                    body(Change::Default, ""),
                ],
            },
            DiffHunk {
                old_line: 0,
                old_len: usize::MAX,
                new_line: 120,
                new_len: 0,
                change: vec![body(Change::Added, "@@ -1,1 +1,1 @@")],
            },
            DiffHunk { old_line: 7, old_len: 0, new_line: 7, new_len: 0, change: vec![] },
        ],
    };
    let com = Parser::parse_git_udiff(&text_of(&diff)).unwrap();
    assert_eq!(com, DiffComposition { format: DiffFormat::GitUdiff, diff: vec![diff.clone()] });

    diff.index = None;
    diff.hunk.clear();
    let com = Parser::parse_git_udiff(&text_of(&diff)).unwrap();
    assert_eq!(com, DiffComposition { format: DiffFormat::GitUdiff, diff: vec![diff] });
}

#[test]
fn diffs_in_the_grammar_are_read_each_with_its_own_hunks() {
    let file = |path: &str, index: Option<&str>, hunk: Vec<DiffHunk>| Diff {
        command: Some(format!("diff --git a/{path} b/{path}")),
        index: index.map(|text| text.to_string()),
        path: path.to_string(),
        hunk,
    };
    let hunk = |line: usize, change: Vec<LineChange>| DiffHunk {
        old_line: line,
        old_len: 1,
        new_line: line + 1,
        new_len: 2,
        change,
    };
    let diffs = vec![
        file(
            "a.txt",
            Some("1..2"),
            vec![
                hunk(1, vec![body(Change::Default, "one"), body(Change::Added, "two")]),
                hunk(9, vec![body(Change::Deleted, "nine")]),
            ],
        ),
        file("dir/b.txt", None, vec![hunk(3, vec![body(Change::Added, "")])]),
        file("c.txt", Some("3..4"), vec![hunk(5, vec![body(Change::Default, "five")]), hunk(7, vec![])]),
    ];
    let text: String = diffs.iter().map(text_of).collect();
    let com = Parser::parse_git_udiff(&text).unwrap();
    assert_eq!(com, DiffComposition { format: DiffFormat::GitUdiff, diff: diffs });
}

#[test]
fn a_deleted_line_of_two_dashes_reads_as_a_header_behind_a_body_line() {
    let diff = Diff {
        command: Some("diff --git a/f b/f".to_string()),
        index: None,
        path: "f".to_string(),
        hunk: vec![DiffHunk {
            old_line: 1,
            old_len: 2,
            new_line: 1,
            new_len: 1,
            change: vec![body(Change::Default, "kept"), body(Change::Deleted, "-- a comment")],
        }],
    };
    let e = Parser::parse_git_udiff(&text_of(&diff)).unwrap_err();
    assert_eq!(e.kind, ParseErrorKind::ExpectationFailed);
    assert_eq!(e.reason, "old file path not start with `a/`");
    assert_eq!(e.line, "--- a comment");
}
