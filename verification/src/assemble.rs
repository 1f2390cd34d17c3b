//! Assembling the diff model from the lines of a diff text, one line at a time.

use crate::diff::{
    changes_view, diffs_view, hunks_view, Change, Diff, DiffComposition, DiffCompositionView,
    DiffFormat, DiffHunk, DiffHunkView, DiffView, Line, LineChange, LineChangeView,
};
use crate::parser::{
    classify, content_span, line_content, line_kind, state_after, ParseError, ParseErrorKind,
    ParseErrorView, ParserState,
};
use crate::scan::{
    cut_once, cut_prefix, parse_unsigned, same_chars, split_once, strip_prefix, unsigned_of,
};
use crate::text::string_from;
use vstd::prelude::*;
use vstd::string::StringExecFns;

verus! {

/// What has been assembled so far: the diffs that are closed, the diff in
/// progress, and the hunk in progress.
pub struct AssemblyView {
    pub state: ParserState,
    pub done: Seq<DiffView>,
    pub diff: Option<DiffView>,
    pub hunk: Option<DiffHunkView>,
}

/// The error for a line that lacks what its place asks for.
pub open spec fn expectation_failed(reason: Seq<char>, line: Seq<char>) -> ParseErrorView {
    ParseErrorView { kind: ParseErrorKind::ExpectationFailed, reason, line }
}

/// The path that a command names on both of its sides, or the reason why it
/// names none. The command reads `diff --git a/<path> b/<path>`; its two
/// sides part at the first space behind `diff --git `.
pub open spec fn command_path(content: Seq<char>) -> Result<Seq<char>, Seq<char>> {
    match strip_prefix(content, "diff --git "@) {
        Some(sides) => match split_once(sides, ' ') {
            Some((side_a, side_b)) => match strip_prefix(side_a, "a/"@) {
                Some(path_a) => match strip_prefix(side_b, "b/"@) {
                    Some(path_b) => if path_a == path_b {
                        Ok(path_a)
                    } else {
                        Err("file path a and b are different"@)
                    },
                    None => Err("expect to path_a start with `b/`"@),
                },
                None => Err("expect to path_a start with `a/`"@),
            },
            None => Err(
                "lines not starting with `diff --git ` or cannot split command's arguments"@,
            ),
        },
        None => Err("lines not starting with `diff --git ` or cannot split command's arguments"@),
    }
}

/// The hunk that a header announces, yet without changes, or the reason why
/// the header is malformed. The header reads `-<line>,<length> +<line>,<length>`:
/// its halves part at the first space, each half at its first comma.
pub open spec fn hunk_header(content: Seq<char>) -> Result<DiffHunkView, Seq<char>> {
    match split_once(content, ' ') {
        None => Err("there is no space in hunk line"@),
        Some((old, new)) => match split_once(old, ',') {
            None => Err("cannot split hunk old range with `,`"@),
            Some((old_line, old_len)) => match split_once(new, ',') {
                None => Err("cannot split hunk new range with `,`"@),
                Some((new_line, new_len)) => match strip_prefix(old_line, "-"@) {
                    None => Err("cannot strip `-` of old_line"@),
                    Some(old_line) => match unsigned_of(old_line) {
                        None => Err("cannot parse old_line to usize"@),
                        Some(old_line) => match unsigned_of(old_len) {
                            None => Err("cannot parse old_len to usize"@),
                            Some(old_len) => match strip_prefix(new_line, "+"@) {
                                None => Err("cannot strip `+` of new_line"@),
                                Some(new_line) => match unsigned_of(new_line) {
                                    None => Err("cannot parse new_line to usize"@),
                                    Some(new_line) => match unsigned_of(new_len) {
                                        None => Err("cannot parse new_len to usize"@),
                                        Some(new_len) => Ok(
                                            DiffHunkView {
                                                old_line: old_line as nat,
                                                old_len: old_len as nat,
                                                new_line: new_line as nat,
                                                new_len: new_len as nat,
                                                change: Seq::empty(),
                                            },
                                        ),
                                    },
                                },
                            },
                        },
                    },
                },
            },
        },
    }
}

/// The reason given when a header names another path than the diff's command.
pub open spec fn other_path_reason(side: Seq<char>, diff_path: Seq<char>, path: Seq<char>) -> Seq<char> {
    "diff path and "@ + side + " path is different, [diff: "@ + diff_path + "] ["@ + side + ": "@
        + path + "]"@
}

/// A diff with one more hunk at its end.
pub open spec fn with_hunk(diff: DiffView, hunk: DiffHunkView) -> DiffView {
    DiffView { hunk: diff.hunk.push(hunk), ..diff }
}

/// The diff in progress with the hunk in progress, where there is one, at
/// the end of its hunks.
pub open spec fn with_pending(diff: DiffView, hunk: Option<DiffHunkView>) -> DiffView {
    match hunk {
        Some(h) => with_hunk(diff, h),
        None => diff,
    }
}

/// The diffs of an assembly when the diff in progress closes: the closed
/// diffs, then the diff in progress with the hunk in progress in it.
pub open spec fn closed(a: AssemblyView) -> Seq<DiffView> {
    match a.diff {
        Some(d) => a.done.push(with_pending(d, a.hunk)),
        None => a.done,
    }
}

/// A command closes the diff in progress, with the hunk in progress in it,
/// and opens the next diff, which has no hunk yet.
pub open spec fn on_command(a: AssemblyView, content: Seq<char>, line: Seq<char>) -> Result<
    AssemblyView,
    ParseErrorView,
> {
    match command_path(content) {
        Err(reason) => Err(expectation_failed(reason, line)),
        Ok(path) => Ok(
            AssemblyView {
                done: closed(a),
                diff: Some(
                    DiffView { command: Some(content), index: None, path, hunk: Seq::empty() },
                ),
                hunk: None,
                ..a
            },
        ),
    }
}

/// An index line gives the diff in progress its index, once.
pub open spec fn on_index(a: AssemblyView, content: Seq<char>, line: Seq<char>) -> Result<
    AssemblyView,
    ParseErrorView,
> {
    match a.diff {
        None => Err(expectation_failed("there is no current diff None"@, line)),
        Some(d) => if d.index is Some {
            Err(
                ParseErrorView {
                    kind: ParseErrorKind::InvalidLine,
                    reason: "there is index in current diff"@,
                    line,
                },
            )
        } else {
            Ok(AssemblyView { diff: Some(DiffView { index: Some(content), ..d }), ..a })
        },
    }
}

/// A header must name the path of the diff in progress behind its marker,
/// `a/` for the origin and `b/` for the new file.
pub open spec fn on_header(a: AssemblyView, origin: bool, content: Seq<char>, line: Seq<char>) -> Result<
    AssemblyView,
    ParseErrorView,
> {
    match a.diff {
        None => Err(expectation_failed("there is no current diff None"@, line)),
        Some(d) => match strip_prefix(
            content,
            if origin {
                "a/"@
            } else {
                "b/"@
            },
        ) {
            None => Err(
                expectation_failed(
                    if origin {
                        "old file path not start with `a/`"@
                    } else {
                        "old file path not start with `b/`"@
                    },
                    line,
                ),
            ),
            Some(path) => if d.path != path {
                Err(
                    expectation_failed(
                        other_path_reason(
                            if origin {
                                "origin"@
                            } else {
                                "new"@
                            },
                            d.path,
                            path,
                        ),
                        line,
                    ),
                )
            } else {
                Ok(a)
            },
        },
    }
}

/// A hunk header moves the hunk in progress into the diff in progress and
/// opens the next hunk.
pub open spec fn on_hunk(a: AssemblyView, content: Seq<char>, line: Seq<char>) -> Result<
    AssemblyView,
    ParseErrorView,
> {
    match a.diff {
        None => Err(expectation_failed("there is no current diff None"@, line)),
        Some(d) => match hunk_header(content) {
            Err(reason) => Err(expectation_failed(reason, line)),
            Ok(hunk) => Ok(
                AssemblyView { diff: Some(with_pending(d, a.hunk)), hunk: Some(hunk), ..a },
            ),
        },
    }
}

/// A body line adds its change to the hunk in progress.
pub open spec fn on_change(a: AssemblyView, kind: Change, content: Seq<char>, line: Seq<char>) -> Result<
    AssemblyView,
    ParseErrorView,
> {
    match a.hunk {
        None => Err(expectation_failed("there is no current hunk"@, line)),
        Some(h) => Ok(
            AssemblyView {
                hunk: Some(
                    DiffHunkView { change: h.change.push(LineChangeView { kind, content }), ..h },
                ),
                ..a
            },
        ),
    }
}

/// The error for a line that begins with nothing that may stand at its place.
pub open spec fn invalid_line_start(line: Seq<char>) -> ParseErrorView {
    ParseErrorView {
        kind: ParseErrorKind::InvalidLineStart,
        reason: "line starting with invalid token"@,
        line,
    }
}

/// What a line of kind `kind` with content `content` makes of the assembly's
/// diffs and hunks.
pub open spec fn react(a: AssemblyView, kind: Line, content: Seq<char>, line: Seq<char>) -> Result<
    AssemblyView,
    ParseErrorView,
> {
    match kind {
        Line::Unknown => Err(invalid_line_start(line)),
        Line::Command => on_command(a, content, line),
        Line::Index => on_index(a, content, line),
        Line::OrignPath => on_header(a, true, content, line),
        Line::NewPath => on_header(a, false, content, line),
        Line::Hunk => on_hunk(a, content, line),
        Line::LineChange(change) => on_change(a, change, content, line),
    }
}

/// What one more line makes of the assembly: the line's kind, which follows
/// from the state, gives the next state and says what the line carries;
/// then the assembly takes that in. A line of unknown kind, or one that is
/// malformed, ends the parse with an error.
pub open spec fn assemble_step(a: AssemblyView, line: Seq<char>) -> Result<AssemblyView, ParseErrorView> {
    let kind = line_kind(a.state, line);
    if kind is Unknown {
        Err(invalid_line_start(line))
    } else {
        match line_content(line, kind) {
            Err(reason) => Err(expectation_failed(reason, line)),
            Ok(content) => match react(a, kind, content, line) {
                Ok(b) => Ok(AssemblyView { state: state_after(a.state, kind), ..b }),
                Err(e) => Err(e),
            },
        }
    }
}

/// What the lines, in order, make of the assembly, up to the first error.
pub open spec fn assemble_run(a: AssemblyView, lines: Seq<Seq<char>>) -> Result<
    AssemblyView,
    ParseErrorView,
>
    decreases lines.len(),
{
    if lines.len() == 0 {
        Ok(a)
    } else {
        match assemble_step(a, lines[0]) {
            Ok(b) => assemble_run(b, lines.drop_first()),
            Err(e) => Err(e),
        }
    }
}

/// The assembly before the first line.
pub open spec fn assembly_start() -> AssemblyView {
    AssemblyView { state: ParserState::Init, done: Seq::empty(), diff: None, hunk: None }
}

/// The composition at the end of the text: the hunk in progress joins the
/// diff in progress, which closes. A text that opened no diff is an error.
pub open spec fn assemble_end(a: AssemblyView) -> Result<DiffCompositionView, ParseErrorView> {
    match a.diff {
        Some(d) => Ok(DiffCompositionView { format: DiffFormat::GitUdiff, diff: closed(a) }),
        None => if a.hunk is Some {
            Err(expectation_failed("there is no diff_cur to add hunk"@, Seq::empty()))
        } else {
            Err(expectation_failed("there is no diff_cur at end"@, Seq::empty()))
        },
    }
}

/// The composition that the lines of a diff text describe.
pub open spec fn parse_lines(lines: Seq<Seq<char>>) -> Result<DiffCompositionView, ParseErrorView> {
    match assemble_run(assembly_start(), lines) {
        Ok(a) => assemble_end(a),
        Err(e) => Err(e),
    }
}

/// The assembly as the parser holds it.
pub struct Assembler {
    pub state: ParserState,
    pub done: Vec<Diff>,
    pub diff: Option<Diff>,
    pub hunk: Option<DiffHunk>,
}

impl View for Assembler {
    type V = AssemblyView;

    open spec fn view(&self) -> AssemblyView {
        AssemblyView {
            state: self.state,
            done: diffs_view(self.done@),
            diff: match self.diff {
                Some(d) => Some(d@),
                None => None,
            },
            hunk: pending_view(self.hunk),
        }
    }
}

pub(crate) fn failure(kind: ParseErrorKind, reason: String, line: &[char]) -> (e: ParseError)
    ensures
        e@ == (ParseErrorView { kind, reason: reason@, line: line@ }),
{
    ParseError { kind, reason, line: string_from(line) }
}

pub(crate) fn expectation(reason: &str, line: &[char]) -> (e: ParseError)
    ensures
        e@ == expectation_failed(reason@, line@),
{
    failure(ParseErrorKind::ExpectationFailed, String::from_str(reason), line)
}

fn read_command_path<'a>(content: &'a [char]) -> (r: Result<&'a [char], &'static str>)
    ensures
        match r {
            Ok(path) => command_path(content@) == Ok::<Seq<char>, Seq<char>>(path@),
            Err(reason) => command_path(content@) == Err::<Seq<char>, Seq<char>>(reason@),
        },
{
    let sides = match cut_prefix(content, "diff --git ") {
        Some(sides) => sides,
        None => {
            return Err("lines not starting with `diff --git ` or cannot split command's arguments");
        },
    };
    let (side_a, side_b) = match cut_once(sides, ' ') {
        Some(parts) => parts,
        None => {
            return Err("lines not starting with `diff --git ` or cannot split command's arguments");
        },
    };
    let path_a = match cut_prefix(side_a, "a/") {
        Some(path) => path,
        None => {
            return Err("expect to path_a start with `a/`");
        },
    };
    let path_b = match cut_prefix(side_b, "b/") {
        Some(path) => path,
        None => {
            return Err("expect to path_a start with `b/`");
        },
    };
    if !same_chars(path_a, path_b) {
        return Err("file path a and b are different");
    }
    Ok(path_a)
}

fn read_hunk_header(content: &[char]) -> (r: Result<DiffHunk, &'static str>)
    ensures
        match r {
            Ok(hunk) => hunk_header(content@) == Ok::<DiffHunkView, Seq<char>>(hunk@),
            Err(reason) => hunk_header(content@) == Err::<DiffHunkView, Seq<char>>(reason@),
        },
{
    let (old, new) = match cut_once(content, ' ') {
        Some(parts) => parts,
        None => {
            return Err("there is no space in hunk line");
        },
    };
    let (old_line, old_len) = match cut_once(old, ',') {
        Some(parts) => parts,
        None => {
            return Err("cannot split hunk old range with `,`");
        },
    };
    let (new_line, new_len) = match cut_once(new, ',') {
        Some(parts) => parts,
        None => {
            return Err("cannot split hunk new range with `,`");
        },
    };
    let old_line = match cut_prefix(old_line, "-") {
        Some(digits) => digits,
        None => {
            return Err("cannot strip `-` of old_line");
        },
    };
    let old_line = match parse_unsigned(old_line) {
        Some(n) => n,
        None => {
            return Err("cannot parse old_line to usize");
        },
    };
    let old_len = match parse_unsigned(old_len) {
        Some(n) => n,
        None => {
            return Err("cannot parse old_len to usize");
        },
    };
    let new_line = match cut_prefix(new_line, "+") {
        Some(digits) => digits,
        None => {
            return Err("cannot strip `+` of new_line");
        },
    };
    let new_line = match parse_unsigned(new_line) {
        Some(n) => n,
        None => {
            return Err("cannot parse new_line to usize");
        },
    };
    let new_len = match parse_unsigned(new_len) {
        Some(n) => n,
        None => {
            return Err("cannot parse new_len to usize");
        },
    };
    let hunk = DiffHunk { old_line, old_len, new_line, new_len, change: Vec::new() };
    proof {
        assert(hunk@.change =~= Seq::empty());
    }
    Ok(hunk)
}

/// The view of a hunk in progress, where there is one.
pub open spec fn pending_view(hunk: Option<DiffHunk>) -> Option<DiffHunkView> {
    match hunk {
        Some(h) => Some(h@),
        None => None,
    }
}

/// Moves the hunk in progress, where there is one, to the end of the diff's hunks.
fn join(diff: Diff, hunk: Option<DiffHunk>) -> (joined: Diff)
    ensures
        joined@ == with_pending(diff@, pending_view(hunk)),
{
    let mut diff = diff;
    let ghost before = diff.hunk@;
    match hunk {
        Some(h) => {
            diff.hunk.push(h);
            proof {
                assert(hunks_view(diff.hunk@) =~= hunks_view(before).push(h@));
            }
        },
        None => {},
    }
    diff
}

fn other_path(side: &str, diff_path: &str, path: &str) -> (reason: String)
    ensures
        reason@ == other_path_reason(side@, diff_path@, path@),
{
    let mut reason = String::from_str("diff path and ");
    reason.append(side);
    reason.append(" path is different, [diff: ");
    reason.append(diff_path);
    reason.append("] [");
    reason.append(side);
    reason.append(": ");
    reason.append(path);
    reason.append("]");
    reason
}

impl Assembler {
    /// The assembly before the first line.
    pub fn new() -> (a: Assembler)
        ensures
            a@ == assembly_start(),
    {
        let a = Assembler { state: ParserState::Init, done: Vec::new(), diff: None, hunk: None };
        proof {
            assert(a@.done =~= Seq::empty());
        }
        a
    }

    fn command(&mut self, content: &[char], line: &[char]) -> (r: Result<(), ParseError>)
        ensures
            match r {
                Ok(()) => on_command(old(self)@, content@, line@) == Ok::<
                    AssemblyView,
                    ParseErrorView,
                >(final(self)@),
                Err(e) => on_command(old(self)@, content@, line@) == Err::<
                    AssemblyView,
                    ParseErrorView,
                >(e@) && *final(self) == *old(self),
            },
    {
        let path = match read_command_path(content) {
            Ok(path) => path,
            Err(reason) => {
                return Err(expectation(reason, line));
            },
        };
        let ghost before = self.done@;
        let pending = self.hunk.take();
        match self.diff.take() {
            Some(d) => {
                let d = join(d, pending);
                self.done.push(d);
                proof {
                    assert(diffs_view(self.done@) =~= diffs_view(before).push(d@));
                }
            },
            None => {},
        }
        let diff = Diff {
            command: Some(string_from(content)),
            index: None,
            path: string_from(path),
            hunk: Vec::new(),
        };
        proof {
            assert(diff@.hunk =~= Seq::empty());
        }
        self.diff = Some(diff);
        Ok(())
    }

    fn index(&mut self, content: &[char], line: &[char]) -> (r: Result<(), ParseError>)
        ensures
            match r {
                Ok(()) => on_index(old(self)@, content@, line@) == Ok::<AssemblyView, ParseErrorView>(
                    final(self)@,
                ),
                Err(e) => on_index(old(self)@, content@, line@) == Err::<
                    AssemblyView,
                    ParseErrorView,
                >(e@) && *final(self) == *old(self),
            },
    {
        match &mut self.diff {
            None => Err(expectation("there is no current diff None", line)),
            Some(d) => {
                if d.index.is_some() {
                    return Err(
                        failure(
                            ParseErrorKind::InvalidLine,
                            String::from_str("there is index in current diff"),
                            line,
                        ),
                    );
                }
                d.index = Some(string_from(content));
                Ok(())
            },
        }
    }

    fn header(&mut self, origin: bool, content: &[char], line: &[char]) -> (r: Result<
        (),
        ParseError,
    >)
        ensures
            match r {
                Ok(()) => on_header(old(self)@, origin, content@, line@) == Ok::<
                    AssemblyView,
                    ParseErrorView,
                >(final(self)@),
                Err(e) => on_header(old(self)@, origin, content@, line@) == Err::<
                    AssemblyView,
                    ParseErrorView,
                >(e@) && *final(self) == *old(self),
            },
    {
        match &self.diff {
            None => Err(expectation("there is no current diff None", line)),
            Some(d) => {
                let marker = if origin {
                    "a/"
                } else {
                    "b/"
                };
                let path = match cut_prefix(content, marker) {
                    Some(path) => string_from(path),
                    None => {
                        let reason = if origin {
                            "old file path not start with `a/`"
                        } else {
                            "old file path not start with `b/`"
                        };
                        return Err(expectation(reason, line));
                    },
                };
                if d.path != path {
                    let side = if origin {
                        "origin"
                    } else {
                        "new"
                    };
                    let reason = other_path(side, d.path.as_str(), path.as_str());
                    return Err(failure(ParseErrorKind::ExpectationFailed, reason, line));
                }
                Ok(())
            },
        }
    }

    fn hunk(&mut self, content: &[char], line: &[char]) -> (r: Result<(), ParseError>)
        ensures
            match r {
                Ok(()) => on_hunk(old(self)@, content@, line@) == Ok::<AssemblyView, ParseErrorView>(
                    final(self)@,
                ),
                Err(e) => on_hunk(old(self)@, content@, line@) == Err::<AssemblyView, ParseErrorView>(
                    e@,
                ) && *final(self) == *old(self),
            },
    {
        if self.diff.is_none() {
            return Err(expectation("there is no current diff None", line));
        }
        let hunk = match read_hunk_header(content) {
            Ok(hunk) => hunk,
            Err(reason) => {
                return Err(expectation(reason, line));
            },
        };
        let pending = self.hunk.take();
        match self.diff.take() {
            Some(d) => {
                self.diff = Some(join(d, pending));
            },
            None => {},
        }
        self.hunk = Some(hunk);
        Ok(())
    }

    fn change(&mut self, kind: Change, content: &[char], line: &[char]) -> (r: Result<
        (),
        ParseError,
    >)
        ensures
            match r {
                Ok(()) => on_change(old(self)@, kind, content@, line@) == Ok::<
                    AssemblyView,
                    ParseErrorView,
                >(final(self)@),
                Err(e) => on_change(old(self)@, kind, content@, line@) == Err::<
                    AssemblyView,
                    ParseErrorView,
                >(e@) && *final(self) == *old(self),
            },
    {
        match &mut self.hunk {
            None => Err(expectation("there is no current hunk", line)),
            Some(h) => {
                let ghost before = h.change@;
                let change = LineChange { kind, content: string_from(content) };
                h.change.push(change);
                proof {
                    assert(changes_view(h.change@) =~= changes_view(
                        before,
                    ).push(change@));
                }
                Ok(())
            },
        }
    }

    /// Takes in the next line of the diff text. After an error the assembly
    /// is as it was before the line.
    pub fn step(&mut self, line: &[char]) -> (r: Result<(), ParseError>)
        ensures
            match r {
                Ok(()) => assemble_step(old(self)@, line@) == Ok::<AssemblyView, ParseErrorView>(
                    final(self)@,
                ),
                Err(e) => assemble_step(old(self)@, line@) == Err::<AssemblyView, ParseErrorView>(
                    e@,
                ) && *final(self) == *old(self),
            },
    {
        let kind = classify(self.state, line);
        let (from, to) = match content_span(line, kind) {
            Ok(span) => span,
            Err(reason) => {
                return Err(expectation(reason, line));
            },
        };
        let content = &line[from..to];
        let taken = match kind {
            Line::Unknown => Err(
                failure(
                    ParseErrorKind::InvalidLineStart,
                    String::from_str("line starting with invalid token"),
                    line,
                ),
            ),
            Line::Command => self.command(content, line),
            Line::Index => self.index(content, line),
            Line::OrignPath => self.header(true, content, line),
            Line::NewPath => self.header(false, content, line),
            Line::Hunk => self.hunk(content, line),
            Line::LineChange(change) => self.change(change, content, line),
        };
        match taken {
            Ok(()) => {
                self.state = self.state.after(kind);
                Ok(())
            },
            Err(e) => Err(e),
        }
    }

    /// Closes the assembly at the end of the diff text.
    pub fn finish(self) -> (r: Result<DiffComposition, ParseError>)
        ensures
            match r {
                Ok(composition) => assemble_end(self@) == Ok::<DiffCompositionView, ParseErrorView>(
                    composition@,
                ),
                Err(e) => assemble_end(self@) == Err::<DiffCompositionView, ParseErrorView>(e@),
            },
    {
        let Assembler { state: _, done, diff, hunk } = self;
        let mut done = done;
        match diff {
            Some(d) => {
                let ghost diffs = done@;
                let d = join(d, hunk);
                done.push(d);
                proof {
                    assert(diffs_view(done@) =~= diffs_view(diffs).push(d@));
                }
                Ok(DiffComposition { format: DiffFormat::GitUdiff, diff: done })
            },
            None => {
                let nothing: Vec<char> = Vec::new();
                if hunk.is_some() {
                    Err(expectation("there is no diff_cur to add hunk", nothing.as_slice()))
                } else {
                    Err(expectation("there is no diff_cur at end", nothing.as_slice()))
                }
            },
        }
    }
}

} // verus!
