//! The grammar of a diff text, as the lines that stand for a diff: a
//! command, an index where the diff has one, the two headers, and the hunks,
//! each a header with its ranges and a body line for each change. The parse
//! reads such lines as the diff that they stand for.

use crate::assemble::{
    assemble_run, assemble_step, assembly_start, closed, command_path, hunk_header, on_header,
    parse_lines, react, with_pending, AssemblyView,
};
use crate::diff::{
    Change, DiffCompositionView, DiffFormat, DiffHunkView, DiffView, Line, LineChangeView,
};
use crate::parse_laws::{
    command_line, command_may_follow, header_line, header_may_follow, lemma_command_line_path,
    lemma_header_markers, lemma_kinds_of_lines, lemma_run_split, lemma_split_once_at,
    lemma_strip_prefix,
};
use crate::parser::{line_content, line_kind, parse_text, sign_kind, ParseErrorView, ParserState};
use crate::scan::{
    all_digits, decimal_text, find_from, is_digit, lemma_decimal_reads_back, lemma_decimal_text,
    occurs_at, split_once, strip_prefix, unsigned_of,
};
use crate::text::unlines;
use crate::text_laws::{lemma_lines_of_join, plain_line};
use vstd::prelude::*;

verus! {

/// The sign that a body line of the given kind begins with.
pub open spec fn sign(kind: Change) -> char {
    match kind {
        Change::Added => '+',
        Change::Default => ' ',
        Change::Deleted => '-',
    }
}

/// The body line that stands for a change.
pub open spec fn change_line(change: LineChangeView) -> Seq<char> {
    seq![sign(change.kind)] + change.content
}

/// The two ranges that the header of a hunk holds between its `@@` marks.
pub open spec fn ranges_text(hunk: DiffHunkView) -> Seq<char> {
    "-"@ + decimal_text(hunk.old_line) + ","@ + decimal_text(hunk.old_len) + " +"@ + decimal_text(
        hunk.new_line,
    ) + ","@ + decimal_text(hunk.new_len)
}

/// The header line that stands for a hunk's ranges.
pub open spec fn hunk_header_line(hunk: DiffHunkView) -> Seq<char> {
    "@@ "@ + ranges_text(hunk) + " @@"@
}

/// A hunk without its changes.
pub open spec fn without_changes(hunk: DiffHunkView) -> DiffHunkView {
    DiffHunkView { change: Seq::empty(), ..hunk }
}

/// Whether a `usize` can hold each of the four numbers of a hunk.
pub open spec fn numbers_fit(hunk: DiffHunkView) -> bool {
    &&& hunk.old_line <= usize::MAX
    &&& hunk.old_len <= usize::MAX
    &&& hunk.new_line <= usize::MAX
    &&& hunk.new_len <= usize::MAX
}

/// Digits hold neither a space nor a comma.
proof fn lemma_digits_hold_no_delimiter(s: Seq<char>)
    requires
        all_digits(s),
    ensures
        !s.contains(' '),
        !s.contains(','),
        !s.contains('@'),
{
    if s.contains(' ') {
        let i = choose|i: int| 0 <= i < s.len() && s[i] == ' ';
        assert(is_digit(s[i]));
    }
    if s.contains(',') {
        let i = choose|i: int| 0 <= i < s.len() && s[i] == ',';
        assert(is_digit(s[i]));
    }
    if s.contains('@') {
        let i = choose|i: int| 0 <= i < s.len() && s[i] == '@';
        assert(is_digit(s[i]));
    }
}

/// A sign and a number hold neither a space nor a comma.
proof fn lemma_signed_number(sign: char, n: nat)
    requires
        sign == '-' || sign == '+',
    ensures
        !(seq![sign] + decimal_text(n)).contains(' '),
        !(seq![sign] + decimal_text(n)).contains(','),
        !(seq![sign] + decimal_text(n)).contains('@'),
{
    let s = seq![sign] + decimal_text(n);
    lemma_decimal_text(n);
    lemma_digits_hold_no_delimiter(decimal_text(n));
    assert forall|c: char| c == ' ' || c == ',' || c == '@' implies !s.contains(c) by {
        if s.contains(c) {
            let i = choose|i: int| 0 <= i < s.len() && s[i] == c;
            if i > 0 {
                assert(decimal_text(n)[i - 1] == c);
                assert(decimal_text(n).contains(c));
            }
        }
    }
}

/// A range: a sign, the line number, a comma, the length.
pub open spec fn range_text(sign: char, line: nat, len: nat) -> Seq<char> {
    seq![sign] + decimal_text(line) + seq![','] + decimal_text(len)
}

/// The ranges of a hunk are its two ranges with a space between them.
proof fn lemma_ranges_parts(hunk: DiffHunkView)
    ensures
        ranges_text(hunk) == range_text('-', hunk.old_line, hunk.old_len) + seq![' '] + range_text(
            '+',
            hunk.new_line,
            hunk.new_len,
        ),
{
    reveal_strlit("-");
    reveal_strlit(",");
    reveal_strlit(" +");
    assert(ranges_text(hunk) =~= range_text('-', hunk.old_line, hunk.old_len) + seq![' ']
        + range_text('+', hunk.new_line, hunk.new_len));
}

/// A range holds no space, and parts at its comma into the signed line
/// number and the length.
proof fn lemma_range_splits(sign: char, line: nat, len: nat)
    requires
        sign == '-' || sign == '+',
    ensures
        !range_text(sign, line, len).contains(' '),
        split_once(range_text(sign, line, len), ',') == Some(
            (seq![sign] + decimal_text(line), decimal_text(len)),
        ),
{
    let range = range_text(sign, line, len);
    let signed = seq![sign] + decimal_text(line);
    let length = decimal_text(len);
    lemma_decimal_text(len);
    lemma_digits_hold_no_delimiter(length);
    lemma_signed_number(sign, line);
    assert(!range.contains(' ')) by {
        if range.contains(' ') {
            let i = choose|i: int| 0 <= i < range.len() && range[i] == ' ';
            if i < signed.len() {
                assert(signed[i] == ' ');
                assert(signed.contains(' '));
            } else if i > signed.len() {
                assert(length[i - signed.len() - 1] == ' ');
                assert(length.contains(' '));
            }
        }
    }
    lemma_split_once_at(signed, ',', length);
}

/// A signed number is read: behind its sign stands the number, in decimal.
proof fn lemma_signed_reads_back(sign: Seq<char>, n: nat)
    requires
        n <= usize::MAX,
    ensures
        strip_prefix(sign + decimal_text(n), sign) == Some(decimal_text(n)),
        unsigned_of(decimal_text(n)) == Some(n as usize),
{
    lemma_strip_prefix(decimal_text(n), sign);
    lemma_decimal_reads_back(n as usize);
}

/// A header whose parts are known is read as the numbers that they write.
proof fn lemma_header_from_parts(
    content: Seq<char>,
    old: (Seq<char>, Seq<char>),
    new: (Seq<char>, Seq<char>),
    old_line: Seq<char>,
    new_line: Seq<char>,
    hunk: DiffHunkView,
)
    requires
        numbers_fit(hunk),
        split_once(content, ' ') == Some((old.0 + seq![','] + old.1, new.0 + seq![','] + new.1)),
        split_once(old.0 + seq![','] + old.1, ',') == Some(old),
        split_once(new.0 + seq![','] + new.1, ',') == Some(new),
        strip_prefix(old.0, "-"@) == Some(old_line),
        strip_prefix(new.0, "+"@) == Some(new_line),
        unsigned_of(old_line) == Some(hunk.old_line as usize),
        unsigned_of(old.1) == Some(hunk.old_len as usize),
        unsigned_of(new_line) == Some(hunk.new_line as usize),
        unsigned_of(new.1) == Some(hunk.new_len as usize),
    ensures
        hunk_header(content) == Ok::<DiffHunkView, Seq<char>>(without_changes(hunk)),
{
}

/// The ranges of a hunk are read as the hunk's numbers.
pub proof fn lemma_ranges_read_back(hunk: DiffHunkView)
    requires
        numbers_fit(hunk),
    ensures
        hunk_header(ranges_text(hunk)) == Ok::<DiffHunkView, Seq<char>>(without_changes(hunk)),
{
    let old_line = decimal_text(hunk.old_line);
    let old_len = decimal_text(hunk.old_len);
    let new_line = decimal_text(hunk.new_line);
    let new_len = decimal_text(hunk.new_len);
    let old = range_text('-', hunk.old_line, hunk.old_len);
    let new = range_text('+', hunk.new_line, hunk.new_len);
    assert(split_once(ranges_text(hunk), ' ') == Some((old, new))) by {
        lemma_ranges_parts(hunk);
        lemma_range_splits('-', hunk.old_line, hunk.old_len);
        lemma_split_once_at(old, ' ', new);
    }
    lemma_range_splits('-', hunk.old_line, hunk.old_len);
    lemma_range_splits('+', hunk.new_line, hunk.new_len);
    assert(strip_prefix(seq!['-'] + old_line, "-"@) == Some(old_line) && unsigned_of(old_line)
        == Some(hunk.old_line as usize)) by {
        reveal_strlit("-");
        assert("-"@ =~= seq!['-']);
        lemma_signed_reads_back("-"@, hunk.old_line);
    }
    assert(strip_prefix(seq!['+'] + new_line, "+"@) == Some(new_line) && unsigned_of(new_line)
        == Some(hunk.new_line as usize)) by {
        reveal_strlit("+");
        assert("+"@ =~= seq!['+']);
        lemma_signed_reads_back("+"@, hunk.new_line);
    }
    lemma_decimal_reads_back(hunk.old_len as usize);
    lemma_decimal_reads_back(hunk.new_len as usize);
    lemma_header_from_parts(
        ranges_text(hunk),
        (seq!['-'] + old_line, old_len),
        (seq!['+'] + new_line, new_len),
        old_line,
        new_line,
        hunk,
    );
}

/// In the ranges of a hunk the first character is `-`, and behind the one
/// space stands `+`.
proof fn lemma_ranges_shape(hunk: DiffHunkView)
    ensures
        ranges_text(hunk).len() > 0,
        ranges_text(hunk)[0] == '-',
        forall|j: int|
            0 <= j < ranges_text(hunk).len() && #[trigger] ranges_text(hunk)[j] == ' ' ==> j + 1
                < ranges_text(hunk).len() && ranges_text(hunk)[j + 1] == '+',
{
    let text = ranges_text(hunk);
    let old = range_text('-', hunk.old_line, hunk.old_len);
    let new = range_text('+', hunk.new_line, hunk.new_len);
    lemma_ranges_parts(hunk);
    lemma_range_splits('-', hunk.old_line, hunk.old_len);
    lemma_range_splits('+', hunk.new_line, hunk.new_len);
    assert(text[0] == old[0]);
    assert forall|j: int| 0 <= j < text.len() && #[trigger] text[j] == ' ' implies j + 1
        < text.len() && text[j + 1] == '+' by {
        if j < old.len() {
            assert(old[j] == ' ');
            assert(old.contains(' '));
        } else if j > old.len() {
            assert(new[j - old.len() - 1] == ' ');
            assert(new.contains(' '));
        } else {
            assert(text[j + 1] == new[0]);
        }
    }
}

/// Where `pattern` stands at position `k` and at no position from `from`
/// up to `k`, searching from `from` finds it at `k`.
pub proof fn lemma_find_at(s: Seq<char>, pattern: Seq<char>, from: int, k: int)
    requires
        0 <= from <= k,
        occurs_at(s, pattern, k),
        forall|i: int| from <= i < k ==> !occurs_at(s, pattern, i),
    ensures
        find_from(s, pattern, from) == Some(k),
    decreases k - from,
{
    if from < k {
        lemma_find_at(s, pattern, from + 1, k);
    }
}

/// The header line of a hunk carries the hunk's ranges.
pub proof fn lemma_header_line_content(hunk: DiffHunkView)
    ensures
        line_content(hunk_header_line(hunk), Line::Hunk) == Ok::<Seq<char>, Seq<char>>(
            ranges_text(hunk),
        ),
{
    reveal_strlit("@@ ");
    reveal_strlit(" @@");
    let text = ranges_text(hunk);
    let line = hunk_header_line(hunk);
    let k = 3 + text.len() as int;
    lemma_ranges_shape(hunk);
    assert(line.subrange(k, k + 3) =~= " @@"@);
    assert forall|i: int| 0 <= i < k implies !occurs_at(line, " @@"@, i) by {
        if occurs_at(line, " @@"@, i) {
            assert(line.subrange(i, i + 3)[0] == ' ');
            assert(line.subrange(i, i + 3)[1] == '@');
            if i >= 3 {
                assert(line[i] == text[i - 3]);
                if i + 1 < k {
                    assert(line[i + 1] == text[i - 2]);
                }
            }
        }
    }
    lemma_find_at(line, " @@"@, 0, k);
    assert(line.take(k) =~= "@@ "@ + text);
    lemma_strip_prefix(text, "@@ "@);
}

/// Whether a hunk header may follow a line that left the parser in `state`:
/// behind the header of the new file, and behind a body line.
pub open spec fn hunk_may_follow(state: ParserState) -> bool {
    state is NewPath || state is LineChange
}

/// The header line of a hunk, where a hunk may begin, moves the hunk in
/// progress into the diff in progress and opens the hunk that it stands for.
pub proof fn lemma_header_step(a: AssemblyView, hunk: DiffHunkView)
    requires
        hunk_may_follow(a.state),
        a.diff is Some,
        numbers_fit(hunk),
    ensures
        assemble_step(a, hunk_header_line(hunk)) == Ok::<AssemblyView, ParseErrorView>(
            AssemblyView {
                state: ParserState::Hunk,
                done: a.done,
                diff: Some(with_pending(a.diff->Some_0, a.hunk)),
                hunk: Some(without_changes(hunk)),
            },
        ),
{
    let line = hunk_header_line(hunk);
    assert(line_kind(a.state, line) == Line::Hunk) by {
        reveal_strlit("diff");
        reveal_strlit("index");
        reveal_strlit("---");
        reveal_strlit("@@");
        reveal_strlit("@@ ");
        assert(line[0] == '@' && line[1] == '@');
        assert("@@"@ =~= line.subrange(0, 2));
        if "diff"@.is_prefix_of(line) {
            assert(line.subrange(0, 4)[0] == 'd');
        }
        if "index"@.is_prefix_of(line) {
            assert(line.subrange(0, 5)[0] == 'i');
        }
        if "---"@.is_prefix_of(line) {
            assert(line.subrange(0, 3)[0] == '-');
        }
    }
    lemma_header_line_content(hunk);
    lemma_ranges_read_back(hunk);
}

/// Whether the body line of `change` may follow a line that left the
/// parser in `state`: behind a hunk header always; behind a body line unless
/// it begins with three dashes, which there begin the header of the origin.
pub open spec fn change_may_follow(state: ParserState, change: LineChangeView) -> bool {
    state is Hunk || (state is LineChange && !"---"@.is_prefix_of(change_line(change)))
}

/// A body line, where it may stand, adds the change that it stands for to
/// the hunk in progress.
pub proof fn lemma_change_step(a: AssemblyView, change: LineChangeView)
    requires
        change_may_follow(a.state, change),
        a.hunk is Some,
    ensures
        assemble_step(a, change_line(change)) == Ok::<AssemblyView, ParseErrorView>(
            AssemblyView {
                state: ParserState::LineChange(change.kind),
                hunk: Some(
                    DiffHunkView {
                        change: a.hunk->Some_0.change.push(change),
                        ..a.hunk->Some_0
                    },
                ),
                ..a
            },
        ),
{
    let line = change_line(change);
    assert(sign_kind(line) == Line::LineChange(change.kind)) by {
        reveal_strlit("+");
        reveal_strlit(" ");
        reveal_strlit("-");
        assert(line[0] == sign(change.kind));
        assert(line.subrange(0, 1) =~= seq![sign(change.kind)]);
        assert("+"@ =~= seq!['+']);
        assert(" "@ =~= seq![' ']);
        assert("-"@ =~= seq!['-']);
        assert(seq!['+'][0] == '+' && seq![' '][0] == ' ' && seq!['-'][0] == '-');
    }
    assert(line_kind(a.state, line) == Line::LineChange(change.kind)) by {
        reveal_strlit("diff");
        reveal_strlit("index");
        reveal_strlit("@@");
        assert(line[0] == sign(change.kind));
        if "diff"@.is_prefix_of(line) {
            assert(line.subrange(0, 4)[0] == 'd');
        }
        if "index"@.is_prefix_of(line) {
            assert(line.subrange(0, 5)[0] == 'i');
        }
        if "@@"@.is_prefix_of(line) {
            assert(line.subrange(0, 2)[0] == '@');
        }
    }
    assert(line.skip(1) =~= change.content);
}

/// Whether the lines, taken in one after the other from the assembly `a`,
/// all go through and leave the assembly `b`.
#[verifier::opaque]
pub open spec fn reads(a: AssemblyView, lines: Seq<Seq<char>>, b: AssemblyView) -> bool {
    assemble_run(a, lines) == Ok::<AssemblyView, ParseErrorView>(b)
}

/// No lines leave the assembly as it is.
pub proof fn lemma_reads_none(a: AssemblyView)
    ensures
        reads(a, Seq::empty(), a),
{
    reveal(reads);
}

/// A line that goes through is read.
pub proof fn lemma_reads_line(a: AssemblyView, line: Seq<char>, b: AssemblyView)
    requires
        assemble_step(a, line) == Ok::<AssemblyView, ParseErrorView>(b),
    ensures
        reads(a, seq![line], b),
{
    reveal(reads);
    let none = Seq::<Seq<char>>::empty();
    assert(seq![line][0] == line);
    assert(seq![line].drop_first() =~= none);
    assert(assemble_run(b, none) == Ok::<AssemblyView, ParseErrorView>(b));
}

/// Lines that are read, and more lines that are read behind them, are read
/// as one run of lines.
pub proof fn lemma_reads_both(
    a: AssemblyView,
    front: Seq<Seq<char>>,
    b: AssemblyView,
    back: Seq<Seq<char>>,
    c: AssemblyView,
)
    requires
        reads(a, front, b),
        reads(b, back, c),
    ensures
        reads(a, front + back, c),
{
    reveal(reads);
    lemma_run_split(a, front, back);
}

/// The body lines of the changes of a hunk, in order.
pub open spec fn change_lines(changes: Seq<LineChangeView>) -> Seq<Seq<char>> {
    Seq::new(changes.len(), |i: int| change_line(changes[i]))
}

/// Whether the body lines of `changes` may follow, one after the other, a
/// line that left the parser in `state`.
pub open spec fn changes_may_follow(state: ParserState, changes: Seq<LineChangeView>) -> bool {
    &&& changes.len() > 0 ==> change_may_follow(state, changes[0])
    &&& forall|i: int|
        1 <= i < changes.len() ==> !"---"@.is_prefix_of(#[trigger] change_line(changes[i]))
}

/// The state behind the body lines of `changes`, which follow a line that
/// left the parser in `state`.
pub open spec fn state_behind(state: ParserState, changes: Seq<LineChangeView>) -> ParserState {
    if changes.len() == 0 {
        state
    } else {
        ParserState::LineChange(changes.last().kind)
    }
}

/// The assembly with more changes at the end of the hunk in progress.
pub open spec fn with_changes(a: AssemblyView, changes: Seq<LineChangeView>) -> AssemblyView {
    AssemblyView {
        state: state_behind(a.state, changes),
        hunk: Some(
            DiffHunkView { change: a.hunk->Some_0.change + changes, ..a.hunk->Some_0 },
        ),
        ..a
    }
}

/// Body lines, where they may stand, add the changes that they stand for to
/// the hunk in progress, in order.
pub proof fn lemma_changes_read(a: AssemblyView, changes: Seq<LineChangeView>)
    requires
        changes_may_follow(a.state, changes),
        a.hunk is Some,
    ensures
        reads(a, change_lines(changes), with_changes(a, changes)),
    decreases changes.len(),
{
    let h = a.hunk->Some_0;
    if changes.len() == 0 {
        assert(h.change + changes =~= h.change);
        assert(with_changes(a, changes) == a);
        assert(change_lines(changes) =~= Seq::<Seq<char>>::empty());
        lemma_reads_none(a);
    } else {
        let first = changes[0];
        let rest = changes.drop_first();
        let b = with_changes(a, seq![first]);
        assert(reads(a, seq![change_line(first)], b)) by {
            lemma_change_step(a, first);
            assert(h.change + seq![first] =~= h.change.push(first));
            lemma_reads_line(a, change_line(first), b);
        }
        assert(changes_may_follow(b.state, rest)) by {
            if rest.len() > 0 {
                assert(rest[0] == changes[1]);
            }
            assert forall|i: int| 1 <= i < rest.len() implies !"---"@.is_prefix_of(
                #[trigger] change_line(rest[i]),
            ) by {
                assert(rest[i] == changes[i + 1]);
            }
        }
        lemma_changes_read(b, rest);
        assert(with_changes(b, rest) == with_changes(a, changes)) by {
            assert((h.change + seq![first]) + rest =~= h.change + changes);
            if rest.len() > 0 {
                assert(rest.last() == changes.last());
            }
        }
        lemma_reads_both(a, seq![change_line(first)], b, change_lines(rest), with_changes(b, rest));
        assert(seq![change_line(first)] + change_lines(rest) =~= change_lines(changes));
    }
}

/// The lines of a hunk: its header, then its changes.
pub open spec fn hunk_lines(hunk: DiffHunkView) -> Seq<Seq<char>> {
    seq![hunk_header_line(hunk)] + change_lines(hunk.change)
}

/// The lines of hunks, one hunk after the other.
pub open spec fn hunks_lines(hunks: Seq<DiffHunkView>) -> Seq<Seq<char>>
    decreases hunks.len(),
{
    if hunks.len() == 0 {
        Seq::empty()
    } else {
        hunk_lines(hunks[0]) + hunks_lines(hunks.drop_first())
    }
}

/// Whether the parse can read the hunks from their lines: the numbers of
/// each fit a `usize`; every hunk but the last has a change, since a hunk
/// header cannot follow a hunk header; and behind the first body line of a
/// hunk no body line begins with three dashes.
pub open spec fn readable_hunks(hunks: Seq<DiffHunkView>) -> bool {
    forall|i: int|
        0 <= i < hunks.len() ==> {
            &&& numbers_fit(#[trigger] hunks[i])
            &&& changes_may_follow(ParserState::Hunk, hunks[i].change)
            &&& i < hunks.len() - 1 ==> hunks[i].change.len() > 0
        }
}

/// The assembly behind the lines of a hunk: the hunk in progress before
/// them has joined the diff in progress, and the hunk is in progress.
pub open spec fn hunk_read(a: AssemblyView, hunk: DiffHunkView) -> AssemblyView {
    AssemblyView {
        state: state_behind(ParserState::Hunk, hunk.change),
        done: a.done,
        diff: Some(with_pending(a.diff->Some_0, a.hunk)),
        hunk: Some(hunk),
    }
}

/// The lines of a hunk, where a hunk may begin, are read.
pub proof fn lemma_hunk_read(a: AssemblyView, hunk: DiffHunkView)
    requires
        hunk_may_follow(a.state),
        a.diff is Some,
        numbers_fit(hunk),
        changes_may_follow(ParserState::Hunk, hunk.change),
    ensures
        reads(a, hunk_lines(hunk), hunk_read(a, hunk)),
{
    let opened = AssemblyView {
        state: ParserState::Hunk,
        done: a.done,
        diff: Some(with_pending(a.diff->Some_0, a.hunk)),
        hunk: Some(without_changes(hunk)),
    };
    assert(reads(a, seq![hunk_header_line(hunk)], opened)) by {
        lemma_header_step(a, hunk);
        lemma_reads_line(a, hunk_header_line(hunk), opened);
    }
    lemma_changes_read(opened, hunk.change);
    assert(with_changes(opened, hunk.change) == hunk_read(a, hunk)) by {
        assert(Seq::<LineChangeView>::empty() + hunk.change =~= hunk.change);
    }
    lemma_reads_both(
        a,
        seq![hunk_header_line(hunk)],
        opened,
        change_lines(hunk.change),
        hunk_read(a, hunk),
    );
}

/// The assembly behind the lines of hunks.
pub open spec fn hunks_read(a: AssemblyView, hunks: Seq<DiffHunkView>) -> AssemblyView
    decreases hunks.len(),
{
    if hunks.len() == 0 {
        a
    } else {
        hunks_read(hunk_read(a, hunks[0]), hunks.drop_first())
    }
}

/// The state behind the lines of hunks, of which there is one at least.
pub open spec fn state_behind_hunks(hunks: Seq<DiffHunkView>) -> ParserState {
    state_behind(ParserState::Hunk, hunks.last().change)
}

/// Readable hunks without the first are readable.
proof fn lemma_readable_rest(hunks: Seq<DiffHunkView>)
    requires
        hunks.len() > 0,
        readable_hunks(hunks),
    ensures
        readable_hunks(hunks.drop_first()),
        hunks.len() > 1 ==> hunks[0].change.len() > 0,
{
    let rest = hunks.drop_first();
    assert forall|i: int| 0 <= i < rest.len() implies {
        &&& numbers_fit(#[trigger] rest[i])
        &&& changes_may_follow(ParserState::Hunk, rest[i].change)
        &&& i < rest.len() - 1 ==> rest[i].change.len() > 0
    } by {
        assert(rest[i] == hunks[i + 1]);
    }
}

/// The lines of hunks, where a hunk may begin, are read: the hunks join the
/// hunks of the diff in progress, the last of them being in progress.
pub proof fn lemma_hunks_read(a: AssemblyView, hunks: Seq<DiffHunkView>)
    requires
        hunks.len() > 0 ==> hunk_may_follow(a.state),
        a.diff is Some,
        readable_hunks(hunks),
    ensures
        reads(a, hunks_lines(hunks), hunks_read(a, hunks)),
        hunks_read(a, hunks).done == a.done,
        hunks_read(a, hunks).diff is Some,
        hunks.len() > 0 ==> hunks_read(a, hunks).state == state_behind_hunks(hunks),
        with_pending(hunks_read(a, hunks).diff->Some_0, hunks_read(a, hunks).hunk) == (DiffView {
            hunk: with_pending(a.diff->Some_0, a.hunk).hunk + hunks,
            ..a.diff->Some_0
        }),
    decreases hunks.len(),
{
    let joined = with_pending(a.diff->Some_0, a.hunk);
    if hunks.len() == 0 {
        lemma_reads_none(a);
        assert(joined.hunk + hunks =~= joined.hunk);
    } else {
        let first = hunks[0];
        let rest = hunks.drop_first();
        let b = hunk_read(a, first);
        lemma_readable_rest(hunks);
        lemma_hunk_read(a, first);
        lemma_hunks_read(b, rest);
        lemma_reads_both(a, hunk_lines(first), b, hunks_lines(rest), hunks_read(b, rest));
        assert(joined.hunk.push(first) + rest =~= joined.hunk + hunks);
        if rest.len() > 0 {
            assert(rest.last() == hunks.last());
        }
    }
}

/// The line of the index of a diff, where it has one.
pub open spec fn index_lines(index: Option<Seq<char>>) -> Seq<Seq<char>> {
    match index {
        Some(index) => seq!["index "@ + index],
        None => Seq::empty(),
    }
}

/// The two header lines of a path.
pub open spec fn header_lines(path: Seq<char>) -> Seq<Seq<char>> {
    seq![header_line(true, path)] + seq![header_line(false, path)]
}

/// The lines of the head of a diff: its command, its index where it
/// has one, and the headers of the origin and of the new file.
pub open spec fn head_lines(diff: DiffView) -> Seq<Seq<char>> {
    seq![command_line(diff.path, diff.path)] + index_lines(diff.index) + header_lines(diff.path)
}

/// The lines that stand for a diff: its head, then its hunks.
pub open spec fn diff_lines(diff: DiffView) -> Seq<Seq<char>> {
    head_lines(diff) + hunks_lines(diff.hunk)
}

/// The lines that stand for diffs, one diff after the other.
pub open spec fn diffs_lines(diffs: Seq<DiffView>) -> Seq<Seq<char>>
    decreases diffs.len(),
{
    if diffs.len() == 0 {
        Seq::empty()
    } else {
        diff_lines(diffs[0]) + diffs_lines(diffs.drop_first())
    }
}

/// Whether the parse can read the diff from its lines: its command names
/// its path on both sides, the path holds no space, and its hunks are
/// readable.
pub open spec fn readable(diff: DiffView) -> bool {
    &&& diff.command == Some(command_line(diff.path, diff.path))
    &&& !diff.path.contains(' ')
    &&& readable_hunks(diff.hunk)
}

/// Whether the lines of a diff end with a body line: it has a hunk, and
/// its last hunk has a change.
pub open spec fn ends_with_change(diff: DiffView) -> bool {
    diff.hunk.len() > 0 && diff.hunk.last().change.len() > 0
}

/// Whether the parse can read the diffs from their lines: each is readable,
/// and each but the last ends with a body line, since a command can follow
/// nothing else.
pub open spec fn readable_diffs(diffs: Seq<DiffView>) -> bool {
    forall|i: int|
        0 <= i < diffs.len() ==> {
            &&& readable(#[trigger] diffs[i])
            &&& i < diffs.len() - 1 ==> ends_with_change(diffs[i])
        }
}

/// The diff that a command opens: nothing but the command and its path.
pub open spec fn opened_diff(path: Seq<char>) -> DiffView {
    DiffView {
        command: Some(command_line(path, path)),
        index: None,
        path,
        hunk: Seq::empty(),
    }
}

/// A command, where it may stand, closes the diff in progress and opens its own.
pub proof fn lemma_command_step(a: AssemblyView, path: Seq<char>)
    requires
        command_may_follow(a.state),
        !path.contains(' '),
    ensures
        assemble_step(a, command_line(path, path)) == Ok::<AssemblyView, ParseErrorView>(
            AssemblyView {
                state: ParserState::Command,
                done: closed(a),
                diff: Some(opened_diff(path)),
                hunk: None,
            },
        ),
{
    let line = command_line(path, path);
    assert(line_kind(a.state, line) == Line::Command) by {
        lemma_kinds_of_lines(a.state, path, path);
    }
    assert(command_path(line) == Ok::<Seq<char>, Seq<char>>(path)) by {
        lemma_command_line_path(path, path);
    }
}

/// An index line behind a command gives the diff in progress its index.
pub proof fn lemma_index_step(a: AssemblyView, index: Seq<char>)
    requires
        a.state is Command,
        a.diff matches Some(d) && d.index is None,
    ensures
        assemble_step(a, "index "@ + index) == Ok::<AssemblyView, ParseErrorView>(
            AssemblyView {
                state: ParserState::Index,
                diff: Some(DiffView { index: Some(index), ..a.diff->Some_0 }),
                ..a
            },
        ),
{
    let line = "index "@ + index;
    assert(line_kind(a.state, line) == Line::Index) by {
        reveal_strlit("index");
        reveal_strlit("index ");
        assert("index"@ =~= line.subrange(0, 5));
    }
    assert(line_content(line, Line::Index) == Ok::<Seq<char>, Seq<char>>(index)) by {
        lemma_strip_prefix(index, "index "@);
    }
}

/// The marker of a header's path: `a/` for the origin, `b/` for the new file.
pub open spec fn path_marker(origin: bool) -> Seq<char> {
    if origin {
        "a/"@
    } else {
        "b/"@
    }
}

/// The kind of a header line.
pub open spec fn header_kind(origin: bool) -> Line {
    if origin {
        Line::OrignPath
    } else {
        Line::NewPath
    }
}

/// A header line carries the marker and the path.
proof fn lemma_header_content(origin: bool, path: Seq<char>)
    ensures
        line_content(header_line(origin, path), header_kind(origin)) == Ok::<Seq<char>, Seq<char>>(
            path_marker(origin) + path,
        ),
{
    lemma_header_markers();
    if origin {
        assert(header_line(origin, path) =~= "--- "@ + ("a/"@ + path));
        lemma_strip_prefix("a/"@ + path, "--- "@);
    } else {
        assert(header_line(origin, path) =~= "+++ "@ + ("b/"@ + path));
        lemma_strip_prefix("b/"@ + path, "+++ "@);
    }
}

/// A header with the path of the diff in progress leaves the assembly as it is.
proof fn lemma_on_header_same_path(a: AssemblyView, origin: bool, line: Seq<char>)
    requires
        a.diff is Some,
    ensures
        on_header(a, origin, path_marker(origin) + a.diff->Some_0.path, line) == Ok::<
            AssemblyView,
            ParseErrorView,
        >(a),
{
    if origin {
        lemma_strip_prefix(a.diff->Some_0.path, "a/"@);
    } else {
        lemma_strip_prefix(a.diff->Some_0.path, "b/"@);
    }
}

/// What a header line of the diff in progress makes of the assembly, behind
/// its kind and its content.
proof fn lemma_header_reacts(a: AssemblyView, origin: bool)
    requires
        a.diff is Some,
    ensures
        react(
            a,
            header_kind(origin),
            path_marker(origin) + a.diff->Some_0.path,
            header_line(origin, a.diff->Some_0.path),
        ) == Ok::<AssemblyView, ParseErrorView>(a),
{
    lemma_on_header_same_path(a, origin, header_line(origin, a.diff->Some_0.path));
}

/// The state behind a header line.
pub open spec fn header_state(origin: bool) -> ParserState {
    if origin {
        ParserState::OriginPath
    } else {
        ParserState::NewPath
    }
}

/// A header that names the path of the diff in progress, where it may
/// stand, changes the state and nothing else.
pub proof fn lemma_header_line_step(a: AssemblyView, origin: bool)
    requires
        header_may_follow(a.state, origin),
        a.diff is Some,
    ensures
        assemble_step(a, header_line(origin, a.diff->Some_0.path)) == Ok::<
            AssemblyView,
            ParseErrorView,
        >(AssemblyView { state: header_state(origin), ..a }),
{
    let path = a.diff->Some_0.path;
    let line = header_line(origin, path);
    assert(line_kind(a.state, line) == header_kind(origin)) by {
        lemma_kinds_of_lines(a.state, path, path);
    }
    assert(line_content(line, header_kind(origin)) == Ok::<Seq<char>, Seq<char>>(
        path_marker(origin) + path,
    )) by {
        lemma_header_content(origin, path);
    }
    assert(react(a, header_kind(origin), path_marker(origin) + path, line) == Ok::<
        AssemblyView,
        ParseErrorView,
    >(a)) by {
        lemma_header_reacts(a, origin);
    }
}

/// The assembly behind a command: the diff in progress before it is
/// closed, and the command's diff is open.
pub open spec fn commanded(a: AssemblyView, path: Seq<char>) -> AssemblyView {
    AssemblyView {
        state: ParserState::Command,
        done: closed(a),
        diff: Some(opened_diff(path)),
        hunk: None,
    }
}

/// The assembly behind the index line of a diff, where it has one.
pub open spec fn indexed(a: AssemblyView, index: Option<Seq<char>>) -> AssemblyView {
    match index {
        Some(index) => AssemblyView {
            state: ParserState::Index,
            diff: Some(DiffView { index: Some(index), ..a.diff->Some_0 }),
            ..a
        },
        None => a,
    }
}

/// The index line of a diff, where it has one, is read behind the command.
proof fn lemma_index_read(a: AssemblyView, index: Option<Seq<char>>)
    requires
        a.state is Command,
        a.diff matches Some(d) && d.index is None,
    ensures
        reads(a, index_lines(index), indexed(a, index)),
{
    match index {
        Some(text) => {
            lemma_index_step(a, text);
            lemma_reads_line(a, "index "@ + text, indexed(a, index));
        },
        None => {
            lemma_reads_none(a);
        },
    }
}

/// The assembly behind the two headers of a diff.
pub open spec fn headers_read(a: AssemblyView) -> AssemblyView {
    AssemblyView { state: ParserState::NewPath, ..a }
}

/// The two headers of the diff in progress, where the first may stand, lead
/// to where a hunk may begin, and change nothing else.
pub proof fn lemma_headers_read(a: AssemblyView)
    requires
        header_may_follow(a.state, true),
        a.diff is Some,
    ensures
        reads(a, header_lines(a.diff->Some_0.path), headers_read(a)),
{
    let path = a.diff->Some_0.path;
    let origin = AssemblyView { state: ParserState::OriginPath, ..a };
    assert(reads(a, seq![header_line(true, path)], origin)) by {
        lemma_header_line_step(a, true);
        lemma_reads_line(a, header_line(true, path), origin);
    }
    assert(reads(origin, seq![header_line(false, path)], headers_read(a))) by {
        lemma_header_line_step(origin, false);
        lemma_reads_line(origin, header_line(false, path), headers_read(a));
    }
    lemma_reads_both(
        a,
        seq![header_line(true, path)],
        origin,
        seq![header_line(false, path)],
        headers_read(a),
    );
}

/// The assembly behind the head of a diff: the diff in progress before it
/// is closed, and the diff is open without hunks.
pub open spec fn headed(a: AssemblyView, diff: DiffView) -> AssemblyView {
    AssemblyView {
        state: ParserState::NewPath,
        done: closed(a),
        diff: Some(DiffView { hunk: Seq::empty(), ..diff }),
        hunk: None,
    }
}

/// The head of a diff, where a command may stand, is read: it closes the
/// diff in progress, opens the diff without hunks yet, and leaves the parser
/// where a hunk may begin.
pub proof fn lemma_head_read(a: AssemblyView, diff: DiffView)
    requires
        command_may_follow(a.state),
        diff.command == Some(command_line(diff.path, diff.path)),
        !diff.path.contains(' '),
    ensures
        reads(a, head_lines(diff), headed(a, diff)),
{
    let path = diff.path;
    let command = seq![command_line(path, path)];
    let opened = commanded(a, path);
    let marked = indexed(opened, diff.index);
    assert(reads(a, command, opened)) by {
        lemma_command_step(a, path);
        lemma_reads_line(a, command_line(path, path), opened);
    }
    lemma_index_read(opened, diff.index);
    lemma_reads_both(a, command, opened, index_lines(diff.index), marked);
    assert(reads(marked, header_lines(path), headed(a, diff))) by {
        lemma_headers_read(marked);
        assert(headers_read(marked) == headed(a, diff));
    }
    lemma_reads_both(
        a,
        command + index_lines(diff.index),
        marked,
        header_lines(path),
        headed(a, diff),
    );
}

/// The assembly behind the lines of a diff.
pub open spec fn diff_read(a: AssemblyView, diff: DiffView) -> AssemblyView {
    hunks_read(headed(a, diff), diff.hunk)
}

/// The state behind the lines of a diff.
pub open spec fn state_behind_diff(diff: DiffView) -> ParserState {
    if diff.hunk.len() == 0 {
        ParserState::NewPath
    } else {
        state_behind_hunks(diff.hunk)
    }
}

/// The lines of a diff, where a command may stand, are read: the diff in
/// progress before them closes, and the diff is in progress behind them.
pub proof fn lemma_diff_read(a: AssemblyView, diff: DiffView)
    requires
        command_may_follow(a.state),
        readable(diff),
    ensures
        reads(a, diff_lines(diff), diff_read(a, diff)),
        diff_read(a, diff).diff is Some,
        diff_read(a, diff).state == state_behind_diff(diff),
        closed(diff_read(a, diff)) == closed(a).push(diff),
{
    let opened = headed(a, diff);
    lemma_head_read(a, diff);
    lemma_hunks_read(opened, diff.hunk);
    lemma_reads_both(a, head_lines(diff), opened, hunks_lines(diff.hunk), diff_read(a, diff));
    assert(Seq::<DiffHunkView>::empty() + diff.hunk =~= diff.hunk);
    let read = diff_read(a, diff);
    assert(with_pending(read.diff->Some_0, read.hunk) == diff);
}

/// The assembly behind the lines of diffs.
pub open spec fn diffs_read(a: AssemblyView, diffs: Seq<DiffView>) -> AssemblyView
    decreases diffs.len(),
{
    if diffs.len() == 0 {
        a
    } else {
        diffs_read(diff_read(a, diffs[0]), diffs.drop_first())
    }
}

/// Readable diffs without the first are readable, and a command may follow
/// the first where another diff does.
proof fn lemma_readable_diffs_rest(diffs: Seq<DiffView>)
    requires
        diffs.len() > 0,
        readable_diffs(diffs),
    ensures
        readable(diffs[0]),
        readable_diffs(diffs.drop_first()),
        diffs.len() > 1 ==> command_may_follow(state_behind_diff(diffs[0])),
{
    let rest = diffs.drop_first();
    assert forall|i: int| 0 <= i < rest.len() implies {
        &&& readable(#[trigger] rest[i])
        &&& i < rest.len() - 1 ==> ends_with_change(rest[i])
    } by {
        assert(rest[i] == diffs[i + 1]);
    }
    if diffs.len() > 1 {
        assert(ends_with_change(diffs[0]));
    }
}

/// The lines of diffs, where a command may stand, are read: the diff in
/// progress before them closes, and they follow it in their order, the last
/// of them being in progress.
pub proof fn lemma_diffs_read(a: AssemblyView, diffs: Seq<DiffView>)
    requires
        diffs.len() > 0,
        command_may_follow(a.state),
        readable_diffs(diffs),
    ensures
        reads(a, diffs_lines(diffs), diffs_read(a, diffs)),
        diffs_read(a, diffs).diff is Some,
        closed(diffs_read(a, diffs)) == closed(a) + diffs,
    decreases diffs.len(),
{
    let first = diffs[0];
    let rest = diffs.drop_first();
    let b = diff_read(a, first);
    lemma_readable_diffs_rest(diffs);
    lemma_diff_read(a, first);
    if rest.len() == 0 {
        lemma_reads_none(b);
        assert(diffs_lines(rest) =~= Seq::<Seq<char>>::empty());
        assert(closed(a).push(first) =~= closed(a) + diffs);
    } else {
        lemma_diffs_read(b, rest);
        assert(closed(a).push(first) + rest =~= closed(a) + diffs);
    }
    lemma_reads_both(a, diff_lines(first), b, diffs_lines(rest), diffs_read(b, rest));
}

/// The grammar is read, on lines: where diffs are readable, the parse of
/// the lines that stand for them gives the composition of these diffs, each
/// with its own hunks. No line of them is of unknown kind, and none is
/// malformed.
pub proof fn lemma_grammar_lines_are_read(diffs: Seq<DiffView>)
    requires
        diffs.len() > 0,
        readable_diffs(diffs),
    ensures
        parse_lines(diffs_lines(diffs)) == Ok::<DiffCompositionView, ParseErrorView>(
            DiffCompositionView { format: DiffFormat::GitUdiff, diff: diffs },
        ),
{
    lemma_diffs_read(assembly_start(), diffs);
    reveal(reads);
    assert(closed(assembly_start()) + diffs =~= diffs);
}

/// The grammar is read: where diffs are readable and none of their lines
/// holds a line feed or ends with a carriage return, the parse of the text
/// of their lines gives the composition of these diffs.
pub proof fn lemma_grammar_is_read(diffs: Seq<DiffView>)
    requires
        diffs.len() > 0,
        readable_diffs(diffs),
        forall|k: int|
            0 <= k < diffs_lines(diffs).len() ==> plain_line(#[trigger] diffs_lines(diffs)[k]),
    ensures
        parse_text(unlines(diffs_lines(diffs))) == Ok::<DiffCompositionView, ParseErrorView>(
            DiffCompositionView { format: DiffFormat::GitUdiff, diff: diffs },
        ),
{
    lemma_lines_of_join(diffs_lines(diffs));
    lemma_grammar_lines_are_read(diffs);
}

} // verus!
