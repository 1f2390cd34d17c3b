//! What holds of the parse: a line of unknown kind ends it; a command or a
//! header that names two paths ends it; and every diff that it returns has
//! the one path that its command names on both sides.

use crate::assemble::{
    assemble_run, assemble_step, assembly_start, command_path, expectation_failed,
    invalid_line_start, on_header, parse_lines, AssemblyView,
};
use crate::diff::{DiffCompositionView, DiffView, Line};
use crate::parser::{
    line_content, line_kind, parse_text, state_after, ParseErrorKind, ParseErrorView, ParserState,
};
use crate::scan::{split_once, strip_prefix};
use crate::text::{first_index, lemma_first_index, lemma_first_index_at, lines_of};
use vstd::prelude::*;

verus! {

/// Running over two runs of lines is running over the first and, where that
/// went through, over the second from where the first ended.
pub proof fn lemma_run_split(a: AssemblyView, front: Seq<Seq<char>>, back: Seq<Seq<char>>)
    ensures
        assemble_run(a, front + back) == match assemble_run(a, front) {
            Ok(b) => assemble_run(b, back),
            Err(e) => Err(e),
        },
    decreases front.len(),
{
    if front.len() == 0 {
        assert(front + back =~= back);
    } else {
        assert((front + back)[0] == front[0]);
        assert((front + back).drop_first() =~= front.drop_first() + back);
        match assemble_step(a, front[0]) {
            Ok(b) => {
                lemma_run_split(b, front.drop_first(), back);
            },
            Err(e) => {},
        }
    }
}

/// The first line that fails decides the parse: where the lines before
/// line `k` go through and line `k` fails, the parse fails with its error.
pub proof fn lemma_first_error(lines: Seq<Seq<char>>, k: int, e: ParseErrorView)
    requires
        0 <= k < lines.len(),
        assemble_run(assembly_start(), lines.take(k)) matches Ok(a) && assemble_step(a, lines[k])
            == Err::<AssemblyView, ParseErrorView>(e),
    ensures
        parse_lines(lines) == Err::<DiffCompositionView, ParseErrorView>(e),
{
    let back = lines.skip(k);
    assert(lines =~= lines.take(k) + back);
    lemma_run_split(assembly_start(), lines.take(k), back);
    assert(back[0] == lines[k]);
}

/// A parse that goes through went through at every line.
pub proof fn lemma_parse_passes_each_line(lines: Seq<Seq<char>>, k: int)
    requires
        0 <= k < lines.len(),
        parse_lines(lines) is Ok,
    ensures
        assemble_run(assembly_start(), lines.take(k)) matches Ok(a) && assemble_step(a, lines[k])
            is Ok,
{
    let back = lines.skip(k);
    assert(lines =~= lines.take(k) + back);
    lemma_run_split(assembly_start(), lines.take(k), back);
    assert(back[0] == lines[k]);
}

/// An unknown line aborts the parse: where the lines before line `k` of a
/// diff text go through, and line `k` is of unknown kind in the state that
/// they leave, the parse fails at line `k` with an invalid line start.
pub proof fn lemma_unknown_line_aborts(src: Seq<char>, k: int)
    requires
        0 <= k < lines_of(src).len(),
        assemble_run(assembly_start(), lines_of(src).take(k)) matches Ok(a) && line_kind(
            a.state,
            lines_of(src)[k],
        ) is Unknown,
    ensures
        parse_text(src) == Err::<DiffCompositionView, ParseErrorView>(
            invalid_line_start(lines_of(src)[k]),
        ),
{
    let lines = lines_of(src);
    lemma_first_error(lines, k, invalid_line_start(lines[k]));
}

/// The classifier knows every line of a valid diff text: where the parse
/// goes through, the lines before each line go through, and leave a state
/// in which the kind of that line is not unknown.
pub proof fn lemma_parsed_lines_are_known(src: Seq<char>, k: int)
    requires
        0 <= k < lines_of(src).len(),
        parse_text(src) is Ok,
    ensures
        assemble_run(assembly_start(), lines_of(src).take(k)) matches Ok(a) && !(line_kind(
            a.state,
            lines_of(src)[k],
        ) is Unknown),
{
    lemma_parse_passes_each_line(lines_of(src), k);
}

/// The command line that names `path_a` on its first side and `path_b` on
/// its second.
pub open spec fn command_line(path_a: Seq<char>, path_b: Seq<char>) -> Seq<char> {
    "diff --git a/"@ + path_a + " b/"@ + path_b
}

/// The header line that names `path`, for the origin or for the new file.
pub open spec fn header_line(origin: bool, path: Seq<char>) -> Seq<char> {
    if origin {
        "--- a/"@ + path
    } else {
        "+++ b/"@ + path
    }
}

/// Whether a command may follow a line that left the parser in `state`:
/// at the beginning, and behind the body line of a hunk.
pub open spec fn command_may_follow(state: ParserState) -> bool {
    state is Init || state is LineChange
}

/// Whether a header may follow a line that left the parser in `state`: the
/// header of the origin behind a command, an index or a body line; the
/// header of the new file behind the header of the origin.
pub open spec fn header_may_follow(state: ParserState, origin: bool) -> bool {
    if origin {
        state is Command || state is Index || state is LineChange
    } else {
        state is OriginPath
    }
}

/// A command line is a command wherever a command may stand, and a header
/// line is a header wherever that header may stand.
pub proof fn lemma_kinds_of_lines(state: ParserState, path_a: Seq<char>, path_b: Seq<char>)
    ensures
        command_may_follow(state) ==> line_kind(state, command_line(path_a, path_b))
            == Line::Command,
        header_may_follow(state, true) ==> line_kind(state, header_line(true, path_a))
            == Line::OrignPath,
        header_may_follow(state, false) ==> line_kind(state, header_line(false, path_a))
            == Line::NewPath,
{
    reveal_strlit("diff");
    reveal_strlit("index");
    reveal_strlit("---");
    reveal_strlit("+++");
    reveal_strlit("@@");
    reveal_strlit("diff --git a/");
    reveal_strlit("--- a/");
    reveal_strlit("+++ b/");
    let command = command_line(path_a, path_b);
    let old = header_line(true, path_a);
    let new = header_line(false, path_a);
    assert("diff"@ =~= command.subrange(0, 4));
    assert("---"@ =~= old.subrange(0, 3));
    assert("+++"@ =~= new.subrange(0, 3));
    assert(old[0] == '-' && old[4] == 'a');
    if "index"@.is_prefix_of(old) {
        assert(old.subrange(0, 5)[0] == 'i');
    }
    if "diff"@.is_prefix_of(old) {
        assert(old.subrange(0, 4)[0] == 'd');
    }
}

/// A sequence is its prefix and what is left behind it.
pub proof fn lemma_strip_prefix(s: Seq<char>, prefix: Seq<char>)
    ensures
        strip_prefix(s, prefix) matches Some(rest) ==> s == prefix + rest,
        strip_prefix(prefix + s, prefix) == Some(s),
{
    if prefix.is_prefix_of(s) {
        assert(s =~= prefix + s.skip(prefix.len() as int));
    }
    assert((prefix + s).subrange(0, prefix.len() as int) =~= prefix);
    assert((prefix + s).skip(prefix.len() as int) =~= s);
}

/// A sequence is the two parts around its first `c` and that `c`; the
/// first part holds no `c`.
pub proof fn lemma_split_once(s: Seq<char>, c: char)
    ensures
        split_once(s, c) matches Some((head, tail)) ==> s == head + seq![c] + tail
            && !head.contains(c),
{
    lemma_first_index(s, c);
    let i = first_index(s, c) as int;
    if i < s.len() {
        assert(s =~= s.take(i) + seq![c] + s.skip(i + 1));
    }
}

/// Around a `c` that nothing before it equals, a sequence splits there.
pub proof fn lemma_split_once_at(head: Seq<char>, c: char, tail: Seq<char>)
    requires
        !head.contains(c),
    ensures
        split_once(head + seq![c] + tail, c) == Some((head, tail)),
{
    let s = head + seq![c] + tail;
    assert forall|j: int| 0 <= j < head.len() implies s[j] != c by {
        assert(head.contains(s[j]));
    }
    lemma_first_index_at(s, c, head.len() as int);
    assert(s.take(head.len() as int) =~= head);
    assert(s.skip(head.len() as int + 1) =~= tail);
}

/// A command that names a path reads `diff --git a/<path> b/<path>`, with
/// the same path twice, and the path holds no space.
pub proof fn lemma_command_path(content: Seq<char>)
    ensures
        command_path(content) matches Ok(path) ==> content == command_line(path, path)
            && !path.contains(' '),
{
    if let Ok(path) = command_path(content) {
        let sides = strip_prefix(content, "diff --git "@)->Some_0;
        let (side_a, side_b) = split_once(sides, ' ')->Some_0;
        lemma_strip_prefix(content, "diff --git "@);
        lemma_split_once(sides, ' ');
        lemma_strip_prefix(side_a, "a/"@);
        lemma_strip_prefix(side_b, "b/"@);
        reveal_strlit("diff --git ");
        reveal_strlit("diff --git a/");
        reveal_strlit("a/");
        reveal_strlit("b/");
        reveal_strlit(" b/");
        assert("diff --git "@ + "a/"@ =~= "diff --git a/"@);
        assert(seq![' '] + "b/"@ =~= " b/"@);
        assert(content =~= command_line(path, path));
        if path.contains(' ') {
            let i = choose|i: int| 0 <= i < path.len() && path[i] == ' ';
            assert(side_a[i + 2] == ' ');
            assert(side_a.contains(' '));
        }
    }
}

/// What a command line names: its path, where both sides name the same;
/// where they differ, the reason that says so.
pub proof fn lemma_command_line_path(path_a: Seq<char>, path_b: Seq<char>)
    requires
        !path_a.contains(' '),
    ensures
        command_path(command_line(path_a, path_b)) == if path_a == path_b {
            Ok::<Seq<char>, Seq<char>>(path_a)
        } else {
            Err::<Seq<char>, Seq<char>>("file path a and b are different"@)
        },
{
    let content = command_line(path_a, path_b);
    let side_a = "a/"@ + path_a;
    let side_b = "b/"@ + path_b;
    let sides = side_a + seq![' '] + side_b;
    reveal_strlit("diff --git ");
    reveal_strlit("diff --git a/");
    reveal_strlit("a/");
    reveal_strlit("b/");
    reveal_strlit(" b/");
    assert(content =~= "diff --git "@ + sides);
    lemma_strip_prefix(sides, "diff --git "@);
    assert(!side_a.contains(' ')) by {
        if side_a.contains(' ') {
            let i = choose|i: int| 0 <= i < side_a.len() && side_a[i] == ' ';
            assert(path_a[i - 2] == ' ');
            assert(path_a.contains(' '));
        }
    }
    lemma_split_once_at(side_a, ' ', side_b);
    lemma_strip_prefix(path_a, "a/"@);
    lemma_strip_prefix(path_b, "b/"@);
}

/// Path consistency, for a command: a line that stands where a command may
/// stand either names one path on both sides, which becomes the path of the
/// diff that it opens, or fails the parse with an expectation that failed,
/// at this line. No diff is opened under a path that the line does not name
/// twice.
pub proof fn lemma_command_names_one_path(a: AssemblyView, line: Seq<char>)
    requires
        line_kind(a.state, line) == Line::Command,
    ensures
        match assemble_step(a, line) {
            Ok(b) => b.diff matches Some(d) && d.command == Some(line) && line == command_line(
                d.path,
                d.path,
            ),
            Err(e) => e.kind == ParseErrorKind::ExpectationFailed && e.line == line,
        },
{
    lemma_command_path(line);
}

/// Path consistency, for a command with two paths: a command line whose
/// sides name different paths fails the parse with an expectation that
/// failed, and the reason says that the paths differ.
pub proof fn lemma_differing_command_fails(a: AssemblyView, path_a: Seq<char>, path_b: Seq<char>)
    requires
        !path_a.contains(' '),
        path_a != path_b,
        command_may_follow(a.state),
    ensures
        assemble_step(a, command_line(path_a, path_b)) == Err::<AssemblyView, ParseErrorView>(
            expectation_failed(
                "file path a and b are different"@,
                command_line(path_a, path_b),
            ),
        ),
{
    lemma_kinds_of_lines(a.state, path_a, path_b);
    lemma_command_line_path(path_a, path_b);
}

/// A header that goes through carries the marker and the path of the diff
/// in progress, and changes nothing but the state; one that fails, fails
/// with an expectation that failed.
proof fn lemma_on_header(a: AssemblyView, origin: bool, content: Seq<char>, line: Seq<char>)
    ensures
        match on_header(a, origin, content, line) {
            Ok(b) => a.diff matches Some(d) && content == (if origin {
                "a/"@
            } else {
                "b/"@
            }) + d.path && b.diff == a.diff && b.done == a.done && b.hunk == a.hunk,
            Err(e) => e.kind == ParseErrorKind::ExpectationFailed && e.line == line,
        },
{
    lemma_strip_prefix(content, "a/"@);
    lemma_strip_prefix(content, "b/"@);
}

/// The markers of the header lines are their keywords and the path markers.
pub proof fn lemma_header_markers()
    ensures
        "--- "@ + "a/"@ == "--- a/"@,
        "+++ "@ + "b/"@ == "+++ b/"@,
{
    reveal_strlit("--- ");
    reveal_strlit("+++ ");
    reveal_strlit("a/");
    reveal_strlit("b/");
    reveal_strlit("--- a/");
    reveal_strlit("+++ b/");
    assert("--- "@ + "a/"@ =~= "--- a/"@);
    assert("+++ "@ + "b/"@ =~= "+++ b/"@);
}

/// Path consistency, for a header: a line that stands where the header of
/// the origin, or of the new file, may stand either names the path of the
/// diff in progress behind its marker, and changes nothing but the state,
/// or fails the parse with an expectation that failed, at this line.
pub proof fn lemma_header_names_the_path(a: AssemblyView, line: Seq<char>, origin: bool)
    requires
        line_kind(a.state, line) == if origin {
            Line::OrignPath
        } else {
            Line::NewPath
        },
    ensures
        match assemble_step(a, line) {
            Ok(b) => a.diff matches Some(d) && line == header_line(origin, d.path) && b.diff
                == a.diff && b.done == a.done && b.hunk == a.hunk,
            Err(e) => e.kind == ParseErrorKind::ExpectationFailed && e.line == line,
        },
{
    let kind = line_kind(a.state, line);
    let keyword = if origin {
        "--- "@
    } else {
        "+++ "@
    };
    let marker = if origin {
        "a/"@
    } else {
        "b/"@
    };
    match line_content(line, kind) {
        Ok(content) => {
            assert(assemble_step(a, line) == match on_header(a, origin, content, line) {
                Ok(b) => Ok::<AssemblyView, ParseErrorView>(
                    AssemblyView { state: state_after(a.state, kind), ..b },
                ),
                Err(e) => Err(e),
            });
            assert(strip_prefix(line, keyword) == Some(content));
            lemma_on_header(a, origin, content, line);
            if let Ok(b) = on_header(a, origin, content, line) {
                let d = a.diff->Some_0;
                lemma_strip_prefix(line, keyword);
                lemma_header_markers();
                assert(line == keyword + (marker + d.path));
                assert(keyword + (marker + d.path) =~= (keyword + marker) + d.path);
            }
        },
        Err(reason) => {
            assert(assemble_step(a, line) == Err::<AssemblyView, ParseErrorView>(
                expectation_failed(reason, line),
            ));
        },
    }
}

/// Path consistency, for a header with another path: a header line that
/// names another path than the diff in progress fails the parse with an
/// expectation that failed.
pub proof fn lemma_differing_header_fails(
    a: AssemblyView,
    origin: bool,
    path: Seq<char>,
)
    requires
        a.diff matches Some(d) && d.path != path,
        header_may_follow(a.state, origin),
    ensures
        assemble_step(a, header_line(origin, path)) matches Err(e) && e.kind
            == ParseErrorKind::ExpectationFailed && e.line == header_line(origin, path),
{
    let line = header_line(origin, path);
    lemma_kinds_of_lines(a.state, path, path);
    lemma_header_names_the_path(a, line, origin);
    if assemble_step(a, line) is Ok {
        let d = a.diff->Some_0;
        let marker = if origin {
            "--- a/"@
        } else {
            "+++ b/"@
        };
        assert(marker + d.path == marker + path);
        assert((marker + d.path).skip(marker.len() as int) =~= d.path);
        assert((marker + path).skip(marker.len() as int) =~= path);
    }
}

/// Path consistency, of a whole diff text: where the lines before line `k`
/// go through and leave a state in which a command may follow, and line `k`
/// is a command whose sides name different paths, the parse fails at that
/// line with an expectation that failed.
pub proof fn lemma_differing_command_fails_parse(
    src: Seq<char>,
    k: int,
    path_a: Seq<char>,
    path_b: Seq<char>,
)
    requires
        0 <= k < lines_of(src).len(),
        assemble_run(assembly_start(), lines_of(src).take(k)) matches Ok(a) && command_may_follow(
            a.state,
        ),
        lines_of(src)[k] == command_line(path_a, path_b),
        !path_a.contains(' '),
        path_a != path_b,
    ensures
        parse_text(src) == Err::<DiffCompositionView, ParseErrorView>(
            expectation_failed("file path a and b are different"@, lines_of(src)[k]),
        ),
{
    let lines = lines_of(src);
    let a = assemble_run(assembly_start(), lines.take(k))->Ok_0;
    lemma_differing_command_fails(a, path_a, path_b);
    lemma_first_error(
        lines,
        k,
        expectation_failed("file path a and b are different"@, lines[k]),
    );
}

/// Path consistency, of a whole diff text: where the lines before line `k`
/// go through and leave a diff in progress and a state in which a header
/// may follow, and line `k` is that header with another path than the
/// diff's, the parse fails at that line with an expectation that failed.
pub proof fn lemma_differing_header_fails_parse(
    src: Seq<char>,
    k: int,
    origin: bool,
    path: Seq<char>,
)
    requires
        0 <= k < lines_of(src).len(),
        assemble_run(assembly_start(), lines_of(src).take(k)) matches Ok(a) && header_may_follow(
            a.state,
            origin,
        ) && (a.diff matches Some(d) && d.path != path),
        lines_of(src)[k] == header_line(origin, path),
    ensures
        parse_text(src) matches Err(e) && e.kind == ParseErrorKind::ExpectationFailed && e.line
            == lines_of(src)[k],
{
    let lines = lines_of(src);
    let a = assemble_run(assembly_start(), lines.take(k))->Ok_0;
    lemma_differing_header_fails(a, origin, path);
    lemma_first_error(lines, k, assemble_step(a, lines[k])->Err_0);
}

/// Whether a diff has the one path that its command names on both sides.
pub open spec fn names_one_path(d: DiffView) -> bool {
    d.command == Some(command_line(d.path, d.path))
}

/// Whether every diff of an assembly, closed or in progress, has the one
/// path that its command names.
pub open spec fn assembly_names_paths(a: AssemblyView) -> bool {
    &&& forall|i: int| 0 <= i < a.done.len() ==> names_one_path(#[trigger] a.done[i])
    &&& a.diff matches Some(d) ==> names_one_path(d)
}

/// A line that goes through leaves every diff with the path of its command.
pub proof fn lemma_step_keeps_paths(a: AssemblyView, line: Seq<char>)
    requires
        assembly_names_paths(a),
    ensures
        assemble_step(a, line) matches Ok(b) ==> assembly_names_paths(b),
{
    if let Ok(b) = assemble_step(a, line) {
        match line_kind(a.state, line) {
            Line::Command => {
                lemma_command_names_one_path(a, line);
                assert forall|i: int| 0 <= i < b.done.len() implies names_one_path(
                    #[trigger] b.done[i],
                ) by {
                    if i < a.done.len() {
                        assert(b.done[i] == a.done[i]);
                    }
                }
            },
            _ => {},
        }
    }
}

/// Lines that go through leave every diff with the path of its command.
pub proof fn lemma_run_keeps_paths(a: AssemblyView, lines: Seq<Seq<char>>)
    requires
        assembly_names_paths(a),
    ensures
        assemble_run(a, lines) matches Ok(b) ==> assembly_names_paths(b),
    decreases lines.len(),
{
    if lines.len() > 0 {
        lemma_step_keeps_paths(a, lines[0]);
        if let Ok(b) = assemble_step(a, lines[0]) {
            lemma_run_keeps_paths(b, lines.drop_first());
        }
    }
}

/// Path consistency, of what is returned: every diff of a parsed
/// composition holds the command that opened it, and that command names the
/// diff's path on both of its sides.
pub proof fn lemma_parsed_diffs_name_one_path(src: Seq<char>)
    ensures
        parse_text(src) matches Ok(composition) ==> forall|i: int|
            0 <= i < composition.diff.len() ==> names_one_path(#[trigger] composition.diff[i]),
{
    lemma_run_keeps_paths(assembly_start(), lines_of(src));
    if let Ok(composition) = parse_text(src) {
        let a = assemble_run(assembly_start(), lines_of(src))->Ok_0;
        assert forall|i: int| 0 <= i < composition.diff.len() implies names_one_path(
            #[trigger] composition.diff[i],
        ) by {
            if i < a.done.len() {
                assert(composition.diff[i] == a.done[i]);
            }
        }
    }
}

} // verus!
