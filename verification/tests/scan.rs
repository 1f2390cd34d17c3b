use diff_man::scan::{
    cut_once, cut_prefix, decimal, find_char, find_str, parse_unsigned, same_chars, starts_with,
};

fn chars(s: &str) -> Vec<char> {
    s.chars().collect()
}

fn text(chars: &[char]) -> String {
    chars.iter().collect()
}

/// The position in characters that stands for a position in bytes.
fn char_position(s: &str, byte: usize) -> usize {
    s[..byte].chars().count()
}

const TEXTS: [&str; 14] = [
    "",
    " ",
    "a",
    "@@",
    " @@",
    "@@ -1,2 +3,4 @@",
    "@@ -1,2 +3,4 @@ fn f() @@ x",
    "diff --git a/x b/x",
    "--- a/x",
    "-1,2 +3,4",
    "a,b,c",
    "\u{e9} @@ \u{e9}",
    "aaab",
    "abababc",
];

const PATTERNS: [&str; 12] =
    ["", " ", "a", "@@", " @@", "@@ ", "diff", "---", "ab", "abc", "aab", "\u{e9}"];

#[test]
fn prefix_functions_agree_with_std() {
    for s in TEXTS {
        for p in PATTERNS {
            let cs = chars(s);
            assert_eq!(starts_with(&cs, p), s.starts_with(p), "{:?} starts with {:?}", s, p);
            assert_eq!(
                cut_prefix(&cs, p).map(text),
                s.strip_prefix(p).map(|rest| rest.to_string()),
                "{:?} without {:?}",
                s,
                p
            );
        }
    }
}

#[test]
fn find_str_agrees_with_std() {
    for s in TEXTS {
        for p in PATTERNS {
            let expected = s.find(p).map(|byte| char_position(s, byte));
            assert_eq!(find_str(&chars(s), p), expected, "{:?} in {:?}", p, s);
        }
    }
}

#[test]
fn find_str_examples() {
    assert_eq!(find_str(&chars("@@ -1,2 +3,4 @@ tail"), " @@"), Some(12));
    assert_eq!(find_str(&chars("@@ -1,2 +3,4"), " @@"), None);
    assert_eq!(find_str(&chars(""), ""), Some(0));
    assert_eq!(find_str(&chars("ab"), "abc"), None);
}

#[test]
fn cut_once_agrees_with_std() {
    for s in TEXTS {
        for c in [' ', ',', 'a', '@', '\u{e9}'] {
            let cs = chars(s);
            let expected = s.split_once(c).map(|(head, tail)| (head.to_string(), tail.to_string()));
            assert_eq!(
                cut_once(&cs, c).map(|(head, tail)| (text(head), text(tail))),
                expected,
                "{:?} around {:?}",
                s,
                c
            );
            let first = s.find(c).map(|byte| char_position(s, byte)).unwrap_or(cs.len());
            assert_eq!(find_char(&cs, c), first);
        }
    }
}

#[test]
fn same_chars_is_equality() {
    for a in TEXTS {
        for b in TEXTS {
            assert_eq!(same_chars(&chars(a), &chars(b)), a == b);
        }
    }
}

#[test]
fn parse_unsigned_agrees_with_std() {
    let max = usize::MAX.to_string();
    let above = format!("{}0", usize::MAX);
    let next = (usize::MAX as u128 + 1).to_string();
    let padded = format!("000000000000000000000000000000{}", usize::MAX);
    let samples = [
        "", "+", "-", "0", "00", "7", "+7", "-7", "++7", "+-7", "16", "007", " 7", "7 ", "1_000",
        "0x10", "12a", "a12", "\u{663}", "\u{ff11}", "1.5", "4294967295", "4294967296",
        "18446744073709551615", "18446744073709551616", "99999999999999999999999999",
        max.as_str(), above.as_str(), next.as_str(), padded.as_str(),
    ];
    for s in samples {
        assert_eq!(parse_unsigned(&chars(s)), s.parse::<usize>().ok(), "number {:?}", s);
    }
}

#[test]
fn parse_unsigned_examples() {
    assert_eq!(parse_unsigned(&chars("16")), Some(16));
    assert_eq!(parse_unsigned(&chars("+16")), Some(16));
    assert_eq!(parse_unsigned(&chars("0")), Some(0));
    assert_eq!(parse_unsigned(&chars("")), None);
    assert_eq!(parse_unsigned(&chars("-1")), None);
    assert_eq!(parse_unsigned(&chars("1 ")), None);
    assert_eq!(parse_unsigned(&chars(&usize::MAX.to_string())), Some(usize::MAX));
}

#[test]
fn decimal_agrees_with_std_and_reads_back() {
    let numbers = [
        0, 1, 9, 10, 11, 99, 100, 101, 12345, 4294967295, usize::MAX / 10, usize::MAX - 1,
        usize::MAX,
    ];
    for n in numbers {
        assert_eq!(decimal(n), n.to_string());
        assert_eq!(parse_unsigned(&chars(&decimal(n))), Some(n));
    }
}
