use diff_man::text::{chars_of, join_lines, line_spans, split_lines, string_from};

const SAMPLES: [&str; 22] = [
    "",
    "\n",
    "\r",
    "\r\n",
    "\n\n",
    "\n\r\n",
    "\r\r\n",
    "\r\n\r",
    "a",
    "a\n",
    "a\r\n",
    "a\r",
    "a\nb",
    "a\nb\n",
    "a\n\nb\n",
    "a\r\nb\r\n",
    "a\rb\n",
    "a\r\r\nb",
    "  leading and trailing  \n\ttab\n",
    "\u{e9}t\u{e9}\n\u{65e5}\u{672c}\u{8a9e}\r\n\u{1f600}",
    "one\ntwo\nthree\nfour",
    "\n\n\n",
];

#[test]
fn split_lines_agrees_with_std_lines() {
    for text in SAMPLES {
        let expected: Vec<String> = text.lines().map(|line| line.to_string()).collect();
        assert_eq!(split_lines(text), expected, "lines of {:?}", text);
    }
}

#[test]
fn split_lines_examples() {
    assert_eq!(split_lines(""), Vec::<String>::new());
    assert_eq!(split_lines("a\nb\nc\n"), vec!["a", "b", "c"]);
    assert_eq!(split_lines("a\nb\nc"), vec!["a", "b", "c"]);
    assert_eq!(split_lines("a\r\nb\r\n"), vec!["a", "b"]);
    assert_eq!(split_lines("a\n\n"), vec!["a", ""]);
    assert_eq!(split_lines("a\r"), vec!["a\r"]);
    assert_eq!(split_lines("a\r\r\n"), vec!["a\r"]);
}

#[test]
fn line_spans_mark_each_line() {
    let chars = chars_of("ab\r\n\ncd");
    assert_eq!(line_spans(&chars), vec![(0, 2), (4, 4), (5, 7)]);
    assert_eq!(line_spans(&[]), vec![]);
}

#[test]
fn join_lines_ends_each_line_with_a_line_feed() {
    assert_eq!(join_lines(&vec![]), "");
    assert_eq!(join_lines(&vec!["a"]), "a\n");
    assert_eq!(join_lines(&vec!["a", "", "b"]), "a\n\nb\n");
    assert_eq!(join_lines(&vec!["a\r"]), "a\r\n");
}

#[test]
fn joining_the_lines_of_a_terminated_text_gives_it_back() {
    for text in ["", "a\n", "a\nb\n", "\n", "\n\n", "a\rb\n"] {
        let lines = split_lines(text);
        let borrowed: Vec<&str> = lines.iter().map(|line| line.as_str()).collect();
        assert_eq!(join_lines(&borrowed), text);
    }
    let lines = split_lines("a\r\nb");
    let borrowed: Vec<&str> = lines.iter().map(|line| line.as_str()).collect();
    assert_eq!(join_lines(&borrowed), "a\nb\n");
}

#[test]
fn chars_and_strings_convert_both_ways() {
    for text in SAMPLES {
        let chars = chars_of(text);
        assert_eq!(chars, text.chars().collect::<Vec<char>>());
        assert_eq!(string_from(&chars), text);
    }
}
