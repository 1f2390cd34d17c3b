//! What holds of splitting a text into lines and joining lines into a text.

use crate::text::{first_index, lemma_first_index, lemma_first_index_at, lines_of, strip_cr, unlines};
use vstd::prelude::*;

verus! {

/// Whether every line of `text` ends with a line feed that no carriage
/// return precedes.
pub open spec fn newline_terminated(text: Seq<char>) -> bool {
    &&& text.len() > 0 ==> text.last() == '\n'
    &&& forall|i: int| 0 < i < text.len() && #[trigger] text[i] == '\n' ==> text[i - 1] != '\r'
}

/// Whether `line` can be a line of a text: it holds no line feed and does
/// not end with a carriage return.
pub open spec fn plain_line(line: Seq<char>) -> bool {
    &&& forall|i: int| 0 <= i < line.len() ==> line[i] != '\n'
    &&& line.len() > 0 ==> line.last() != '\r'
}

/// Joining takes the first line, its line feed, and then the other lines.
pub proof fn lemma_unlines_first(first: Seq<char>, rest: Seq<Seq<char>>)
    ensures
        unlines(seq![first] + rest) == first + seq!['\n'] + unlines(rest),
    decreases rest.len(),
{
    let all = seq![first] + rest;
    if rest.len() == 0 {
        assert(all.drop_last() =~= Seq::<Seq<char>>::empty());
        assert(all.last() == first);
        assert(unlines(Seq::<Seq<char>>::empty()) =~= Seq::<char>::empty());
        assert(unlines(rest) =~= Seq::<char>::empty());
        assert(unlines(all) =~= first + seq!['\n'] + unlines(rest));
    } else {
        assert(all.drop_last() =~= seq![first] + rest.drop_last());
        assert(all.last() == rest.last());
        lemma_unlines_first(first, rest.drop_last());
        assert(unlines(all) =~= first + seq!['\n'] + unlines(rest));
    }
}

/// Joining two runs of lines joins their texts.
pub proof fn lemma_unlines_concat(front: Seq<Seq<char>>, back: Seq<Seq<char>>)
    ensures
        unlines(front + back) == unlines(front) + unlines(back),
    decreases back.len(),
{
    if back.len() == 0 {
        assert(front + back =~= front);
        assert(unlines(front) + unlines(back) =~= unlines(front));
    } else {
        assert((front + back).drop_last() =~= front + back.drop_last());
        assert((front + back).last() == back.last());
        lemma_unlines_concat(front, back.drop_last());
        assert(unlines(front + back) =~= unlines(front) + unlines(back));
    }
}

/// A text whose every line ends with a plain line feed is the join of its
/// lines: splitting and joining loses nothing of it.
pub proof fn lemma_join_of_lines(text: Seq<char>)
    requires
        newline_terminated(text),
    ensures
        unlines(lines_of(text)) == text,
    decreases text.len(),
{
    if text.len() == 0 {
        assert(unlines(lines_of(text)) =~= text);
    } else {
        lemma_first_index(text, '\n');
        let n = first_index(text, '\n') as int;
        assert(n < text.len()) by {
            if n >= text.len() {
                assert(text[text.len() - 1] != '\n');
            }
        }
        let line = text.subrange(0, n);
        let rest = text.subrange(n + 1, text.len() as int);
        assert(strip_cr(line) == line) by {
            if line.len() > 0 {
                assert(line.last() == text[n - 1]);
            }
        }
        assert(newline_terminated(rest)) by {
            if rest.len() > 0 {
                assert(rest.last() == text.last());
            }
            assert forall|i: int| 0 < i < rest.len() && #[trigger] rest[i] == '\n' implies rest[i
                - 1] != '\r' by {
                assert(rest[i] == text[n + 1 + i]);
                assert(rest[i - 1] == text[n + i]);
            }
        }
        lemma_join_of_lines(rest);
        lemma_unlines_first(line, lines_of(rest));
        assert(line + seq!['\n'] + rest =~= text);
    }
}

/// Lines that hold no line feed and end with no carriage return are the
/// lines of their join: joining and splitting gives them back.
pub proof fn lemma_lines_of_join(lines: Seq<Seq<char>>)
    requires
        forall|k: int| 0 <= k < lines.len() ==> plain_line(#[trigger] lines[k]),
    ensures
        lines_of(unlines(lines)) == lines,
        newline_terminated(unlines(lines)),
    decreases lines.len(),
{
    if lines.len() == 0 {
        assert(lines_of(unlines(lines)) =~= lines);
    } else {
        let first = lines[0];
        let rest = lines.drop_first();
        assert(lines =~= seq![first] + rest);
        lemma_unlines_first(first, rest);
        lemma_lines_of_join(rest);
        let text = unlines(lines);
        let tail = unlines(rest);
        assert(text == first + seq!['\n'] + tail);
        assert(plain_line(first));
        lemma_first_index_at(text, '\n', first.len() as int);
        assert(text.subrange(0, first.len() as int) =~= first);
        assert(text.subrange(first.len() as int + 1, text.len() as int) =~= tail);
        assert(strip_cr(first) == first);
        assert(newline_terminated(text)) by {
            if tail.len() > 0 {
                assert(text.last() == tail.last());
            }
            assert forall|i: int| 0 < i < text.len() && #[trigger] text[i] == '\n' implies text[i
                - 1] != '\r' by {
                if i > first.len() + 1 {
                    assert(text[i] == tail[i - first.len() - 1]);
                    assert(text[i - 1] == tail[i - first.len() - 2]);
                } else if i == first.len() + 1 {
                } else if i == first.len() {
                    assert(text[i - 1] == first.last());
                } else {
                    assert(text[i] == first[i]);
                }
            }
        }
    }
}

} // verus!
