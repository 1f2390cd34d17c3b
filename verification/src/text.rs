//! Text as sequences of characters: splitting into lines and joining back.

use vstd::prelude::*;
use vstd::string::StringExecFns;

verus! {

/// Taken on trust of std's `String::push`: the call appends `ch` to the
/// string and changes nothing else of it, so the characters after the call
/// are the characters before it with `ch` at their end.
pub assume_specification[ String::push ](s: &mut String, ch: char)
    ensures
        final(s)@ == old(s)@.push(ch),
;

/// Position of the first `c` in `s`, or the length of `s` when `s` holds none.
pub open spec fn first_index(s: Seq<char>, c: char) -> nat
    decreases s.len(),
{
    if s.len() == 0 || s[0] == c {
        0
    } else {
        1 + first_index(s.drop_first(), c)
    }
}

/// A line without the carriage return that may end it.
pub open spec fn strip_cr(line: Seq<char>) -> Seq<char> {
    if line.len() > 0 && line.last() == '\r' {
        line.drop_last()
    } else {
        line
    }
}

/// The lines of a text. A line ends at a line feed, or at a carriage return
/// directly followed by one; neither belongs to the line. The last line need
/// not be terminated, and an empty last line does not count.
pub open spec fn lines_of(text: Seq<char>) -> Seq<Seq<char>>
    decreases text.len(),
{
    let n = first_index(text, '\n');
    if text.len() == 0 {
        Seq::empty()
    } else if n >= text.len() {
        seq![text]
    } else {
        seq![strip_cr(text.subrange(0, n as int))] + lines_of(
            text.subrange(n as int + 1, text.len() as int),
        )
    }
}

/// The text made of the given lines, each followed by one line feed.
pub open spec fn unlines(lines: Seq<Seq<char>>) -> Seq<char>
    decreases lines.len(),
{
    if lines.len() == 0 {
        Seq::empty()
    } else {
        unlines(lines.drop_last()) + lines.last() + seq!['\n']
    }
}

/// `first_index` stays within the sequence, stops on a `c`, and passes none.
pub proof fn lemma_first_index(s: Seq<char>, c: char)
    ensures
        first_index(s, c) <= s.len(),
        first_index(s, c) < s.len() ==> s[first_index(s, c) as int] == c,
        forall|j: int| 0 <= j < first_index(s, c) ==> s[j] != c,
    decreases s.len(),
{
    if s.len() == 0 || s[0] == c {
    } else {
        lemma_first_index(s.drop_first(), c);
        assert forall|j: int| 0 <= j < first_index(s, c) implies s[j] != c by {
            if j > 0 {
                assert(s[j] == s.drop_first()[j - 1]);
            }
        }
    }
}

/// A position that holds the first `c`, or the length when there is no `c`,
/// is what `first_index` gives.
pub proof fn lemma_first_index_at(s: Seq<char>, c: char, i: int)
    requires
        0 <= i <= s.len(),
        i < s.len() ==> s[i] == c,
        forall|j: int| 0 <= j < i ==> s[j] != c,
    ensures
        first_index(s, c) == i,
{
    lemma_first_index(s, c);
    let n = first_index(s, c) as int;
    if n < i {
        assert(s[n] == c);
    }
}

/// Whether `spans` holds, line by line, where the lines of `lines` lie in `chars`.
pub open spec fn spans_cover(
    chars: Seq<char>,
    spans: Seq<(usize, usize)>,
    lines: Seq<Seq<char>>,
) -> bool {
    &&& spans.len() == lines.len()
    &&& forall|k: int|
        0 <= k < spans.len() ==> {
            &&& (#[trigger] spans[k]).0 <= spans[k].1 <= chars.len()
            &&& chars.subrange(spans[k].0 as int, spans[k].1 as int) == lines[k]
        }
}

/// Where each line of `chars` begins and ends.
pub fn line_spans(chars: &[char]) -> (spans: Vec<(usize, usize)>)
    ensures
        spans_cover(chars@, spans@, lines_of(chars@)),
{
    let n = chars.len();
    let mut spans: Vec<(usize, usize)> = Vec::new();
    let ghost mut done: Seq<Seq<char>> = Seq::empty();
    let mut start: usize = 0;
    let mut i: usize = 0;
    proof {
        assert(chars@.subrange(0, n as int) =~= chars@);
    }
    while i < n
        invariant
            n == chars@.len(),
            start <= i <= n,
            forall|j: int| start <= j < i ==> chars@[j] != '\n',
            spans_cover(chars@, spans@, done),
            lines_of(chars@) == done + lines_of(chars@.subrange(start as int, n as int)),
        decreases n - i,
    {
        if chars[i] == '\n' {
            let end = if start < i && chars[i - 1] == '\r' {
                i - 1
            } else {
                i
            };
            proof {
                let rest = chars@.subrange(start as int, n as int);
                lemma_first_index_at(rest, '\n', i - start);
                let line = rest.subrange(0, i - start);
                assert(line =~= chars@.subrange(start as int, i as int));
                assert(strip_cr(line) =~= chars@.subrange(start as int, end as int));
                assert(rest.subrange(i - start + 1, rest.len() as int) =~= chars@.subrange(
                    i + 1,
                    n as int,
                ));
                assert(done + (seq![strip_cr(line)] + lines_of(chars@.subrange(i + 1, n as int)))
                    =~= done.push(strip_cr(line)) + lines_of(chars@.subrange(i + 1, n as int)));
                done = done.push(strip_cr(line));
            }
            spans.push((start, end));
            start = i + 1;
        }
        i += 1;
    }
    if start < n {
        proof {
            let rest = chars@.subrange(start as int, n as int);
            lemma_first_index_at(rest, '\n', n - start);
            assert(done + seq![rest] =~= done.push(rest));
            done = done.push(rest);
        }
        spans.push((start, n));
    } else {
        proof {
            assert(done + Seq::<Seq<char>>::empty() =~= done);
        }
    }
    spans
}

/// The characters of a string, in order.
pub fn chars_of(s: &str) -> (chars: Vec<char>)
    ensures
        chars@ == s@,
{
    let mut chars: Vec<char> = Vec::new();
    for c in it: s.chars()
        invariant
            chars@ == it.seq().take(it.index()),
            it.seq() == s@,
    {
        chars.push(c);
    }
    chars
}

/// The string that holds the given characters.
pub fn string_from(chars: &[char]) -> (s: String)
    ensures
        s@ == chars@,
{
    let mut s = String::new();
    let mut i: usize = 0;
    while i < chars.len()
        invariant
            i <= chars@.len(),
            s@ == chars@.take(i as int),
        decreases chars@.len() - i,
    {
        s.push(chars[i]);
        i += 1;
        proof {
            assert(chars@.take(i as int) =~= chars@.take(i - 1).push(chars@[i - 1]));
        }
    }
    proof {
        assert(chars@.take(i as int) =~= chars@);
    }
    s
}

/// Splits a text into its lines, as `lines_of` defines them.
pub fn split_lines(text: &str) -> (lines: Vec<String>)
    ensures
        lines.deep_view() == lines_of(text@),
{
    let chars = chars_of(text);
    let spans = line_spans(chars.as_slice());
    let mut lines: Vec<String> = Vec::new();
    let mut k: usize = 0;
    while k < spans.len()
        invariant
            k <= spans@.len(),
            chars@ == text@,
            spans_cover(chars@, spans@, lines_of(text@)),
            lines@.len() == k,
            forall|j: int| 0 <= j < k ==> (#[trigger] lines@[j])@ == lines_of(text@)[j],
        decreases spans@.len() - k,
    {
        let (from, to) = spans[k];
        let line = string_from(&chars[from..to]);
        lines.push(line);
        k += 1;
    }
    proof {
        assert(lines.deep_view() =~= lines_of(text@));
    }
    lines
}

/// Joins lines into one text, ending each with a line feed.
pub fn join_lines(lines: &Vec<&str>) -> (text: String)
    ensures
        text@ == unlines(lines.deep_view()),
{
    let mut text = String::new();
    let mut k: usize = 0;
    while k < lines.len()
        invariant
            k <= lines@.len(),
            text@ == unlines(lines.deep_view().take(k as int)),
        decreases lines@.len() - k,
    {
        text.append(lines[k]);
        text.push('\n');
        k += 1;
        proof {
            let done = lines.deep_view().take(k as int);
            assert(done.drop_last() =~= lines.deep_view().take(k - 1));
            assert(done.last() == lines@[k - 1]@);
        }
    }
    proof {
        assert(lines.deep_view().take(k as int) =~= lines.deep_view());
    }
    text
}

} // verus!
