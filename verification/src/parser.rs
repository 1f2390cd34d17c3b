//! Reading git's unified diff format: the kinds of its lines, what each line
//! carries, and the parse of a whole diff text.

use crate::diff::{
    Change, DiffComposition, DiffCompositionView, Line, DIFF_SIGN_HEADER_NEW,
    DIFF_SIGN_HEADER_ORIGIN, DIFF_SIGN_HUNK, DIFF_SIGN_LINE_ADDED, DIFF_SIGN_LINE_DEFAULT,
    DIFF_SIGN_LINE_DELETED,
};
use crate::assemble::{
    assemble_run, assembly_start, expectation, expectation_failed, parse_lines, Assembler,
};
use crate::scan::{cut_prefix, find, find_str, starts_with, strip_prefix};
use crate::text::{chars_of, line_spans, lines_of, spans_cover};
use vstd::prelude::*;
use vstd::string::StrSliceExecFns;

verus! {

/// The parser of diff texts.
pub struct Parser {}

/// Where the parser stands in a diff text: the kind of the line read last.
#[derive(Debug, Clone, Copy, PartialEq, Eq, Structural)]
pub enum ParserState {
    Init,
    Command,
    Index,
    OriginPath,
    NewPath,
    Hunk,
    LineChange(Change),
}

/// Why a diff text could not be parsed.
#[derive(Debug, Clone, Copy, PartialEq, Eq, Structural)]
pub enum ParseErrorKind {
    /// The line begins with nothing that may stand at its place.
    InvalidLineStart,
    /// The line lacks a prefix, a delimiter or a number, or names another path.
    ExpectationFailed,
    /// The line gives a diff what it has already.
    InvalidLine,
}

/// A failure of parsing: its kind, a reason for people to read, and the line
/// at which it came.
#[derive(Debug, Clone, PartialEq, Eq)]
pub struct ParseError {
    pub kind: ParseErrorKind,
    pub reason: String,
    pub line: String,
}

/// What specifications see of a `ParseError`.
pub struct ParseErrorView {
    pub kind: ParseErrorKind,
    pub reason: Seq<char>,
    pub line: Seq<char>,
}

impl View for ParseError {
    type V = ParseErrorView;

    open spec fn view(&self) -> ParseErrorView {
        ParseErrorView { kind: self.kind, reason: self.reason@, line: self.line@ }
    }
}

/// The kind of a hunk's body line, which the sign that it begins with decides.
pub open spec fn sign_kind(line: Seq<char>) -> Line {
    if DIFF_SIGN_LINE_ADDED@.is_prefix_of(line) {
        Line::LineChange(Change::Added)
    } else if DIFF_SIGN_LINE_DEFAULT@.is_prefix_of(line) {
        Line::LineChange(Change::Default)
    } else if DIFF_SIGN_LINE_DELETED@.is_prefix_of(line) {
        Line::LineChange(Change::Deleted)
    } else {
        Line::Unknown
    }
}

/// The kind of `line` when it follows a line that left the parser in
/// `state`. Behind a body line the keywords are tried before the signs.
pub open spec fn line_kind(state: ParserState, line: Seq<char>) -> Line {
    match state {
        ParserState::Init => if "diff"@.is_prefix_of(line) {
            Line::Command
        } else {
            Line::Unknown
        },
        ParserState::Command => if "index"@.is_prefix_of(line) {
            Line::Index
        } else if DIFF_SIGN_HEADER_ORIGIN@.is_prefix_of(line) {
            Line::OrignPath
        } else {
            Line::Unknown
        },
        ParserState::Index => if DIFF_SIGN_HEADER_ORIGIN@.is_prefix_of(line) {
            Line::OrignPath
        } else {
            Line::Unknown
        },
        ParserState::OriginPath => if DIFF_SIGN_HEADER_NEW@.is_prefix_of(line) {
            Line::NewPath
        } else {
            Line::Unknown
        },
        ParserState::NewPath => if DIFF_SIGN_HUNK@.is_prefix_of(line) {
            Line::Hunk
        } else {
            Line::Unknown
        },
        ParserState::Hunk => sign_kind(line),
        ParserState::LineChange(_) => if "diff"@.is_prefix_of(line) {
            Line::Command
        } else if "index"@.is_prefix_of(line) {
            Line::Index
        } else if DIFF_SIGN_HEADER_ORIGIN@.is_prefix_of(line) {
            Line::OrignPath
        } else if DIFF_SIGN_HUNK@.is_prefix_of(line) {
            Line::Hunk
        } else {
            sign_kind(line)
        },
    }
}

/// The state that a line of the given kind leaves the parser in. A line of
/// unknown kind ends the parse and leaves the state as it was.
pub open spec fn state_after(state: ParserState, kind: Line) -> ParserState {
    match kind {
        Line::Command => ParserState::Command,
        Line::Index => ParserState::Index,
        Line::OrignPath => ParserState::OriginPath,
        Line::NewPath => ParserState::NewPath,
        Line::Hunk => ParserState::Hunk,
        Line::LineChange(change) => ParserState::LineChange(change),
        Line::Unknown => state,
    }
}

impl ParserState {
    /// The state that a line of the given kind leaves the parser in.
    pub fn after(self, kind: Line) -> (next: ParserState)
        ensures
            next == state_after(self, kind),
    {
        match kind {
            Line::Command => ParserState::Command,
            Line::Index => ParserState::Index,
            Line::OrignPath => ParserState::OriginPath,
            Line::NewPath => ParserState::NewPath,
            Line::Hunk => ParserState::Hunk,
            Line::LineChange(change) => ParserState::LineChange(change),
            Line::Unknown => self,
        }
    }
}

/// What a line of the given kind carries, or the reason why it is malformed.
/// A command carries the whole line; an index or a header, what follows its
/// keyword and one space; a hunk header, what stands between `@@ ` and the
/// first ` @@`; a body line, what follows its sign.
pub open spec fn line_content(line: Seq<char>, kind: Line) -> Result<Seq<char>, Seq<char>> {
    match kind {
        Line::Command | Line::Unknown => Ok(line),
        Line::Index => match strip_prefix(line, "index "@) {
            Some(rest) => Ok(rest),
            None => Err("expect line start with `index `"@),
        },
        Line::OrignPath => match strip_prefix(line, "--- "@) {
            Some(rest) => Ok(rest),
            None => Err("expect line start with `--- `"@),
        },
        Line::NewPath => match strip_prefix(line, "+++ "@) {
            Some(rest) => Ok(rest),
            None => Err("expect line start with `+++ `"@),
        },
        Line::Hunk => match find(line, " @@"@) {
            Some(end) => match strip_prefix(line.take(end), "@@ "@) {
                Some(rest) => Ok(rest),
                None => Err("expect line start with `@@ `"@),
            },
            None => Err("cannot find hunk end with ` @@`"@),
        },
        Line::LineChange(_) => if line.len() > 0 {
            Ok(line.skip(1))
        } else {
            Ok(line)
        },
    }
}

/// The composition that a diff text describes, or the first error in it.
pub open spec fn parse_text(src: Seq<char>) -> Result<DiffCompositionView, ParseErrorView> {
    parse_lines(lines_of(src))
}

impl Parser {
    /// The kind of `line` when it follows a line that left the parser in `state`.
    pub fn parse_line_kind(state: &ParserState, line: &str) -> (kind: Line)
        ensures
            kind == line_kind(*state, line@),
    {
        let chars = chars_of(line);
        classify(*state, chars.as_slice())
    }

    /// What a line of the given kind carries; an error where the line lacks
    /// the keyword or the delimiter of its kind.
    pub fn parse_line_content<'line>(line: &'line str, kind: &Line) -> (r: Result<
        &'line str,
        ParseError,
    >)
        requires
            !(*kind is Unknown),
        ensures
            match r {
                Ok(content) => line_content(line@, *kind) == Ok::<Seq<char>, Seq<char>>(content@),
                Err(e) => line_content(line@, *kind) == Err::<Seq<char>, Seq<char>>(e@.reason)
                    && e@ == expectation_failed(e@.reason, line@),
            },
    {
        let chars = chars_of(line);
        match content_span(chars.as_slice(), *kind) {
            Ok((from, to)) => Ok(line.substring_char(from, to)),
            Err(reason) => Err(expectation(reason, chars.as_slice())),
        }
    }

    /// Reads a diff text in git's unified format: line by line, from the
    /// first, up to the first line that is out of place or malformed.
    pub fn parse_git_udiff(src: &str) -> (r: Result<DiffComposition, ParseError>)
        ensures
            match r {
                Ok(composition) => parse_text(src@) == Ok::<DiffCompositionView, ParseErrorView>(
                    composition@,
                ),
                Err(e) => parse_text(src@) == Err::<DiffCompositionView, ParseErrorView>(e@),
            },
    {
        let chars = chars_of(src);
        let spans = line_spans(chars.as_slice());
        let ghost lines = lines_of(src@);
        let mut assembler = Assembler::new();
        let mut k: usize = 0;
        proof {
            assert(lines.skip(0) =~= lines);
        }
        while k < spans.len()
            invariant
                k <= spans@.len(),
                chars@ == src@,
                lines == lines_of(src@),
                spans_cover(chars@, spans@, lines),
                assemble_run(assembler@, lines.skip(k as int)) == assemble_run(
                    assembly_start(),
                    lines,
                ),
            decreases spans@.len() - k,
        {
            let (from, to) = spans[k];
            proof {
                assert(lines.skip(k as int)[0] == lines[k as int]);
                assert(lines.skip(k as int).drop_first() =~= lines.skip(k + 1));
            }
            match assembler.step(&chars[from..to]) {
                Ok(()) => {},
                Err(e) => {
                    return Err(e);
                },
            }
            k += 1;
        }
        assembler.finish()
    }
}

fn sign_of(line: &[char]) -> (kind: Line)
    ensures
        kind == sign_kind(line@),
{
    if starts_with(line, DIFF_SIGN_LINE_ADDED) {
        Line::LineChange(Change::Added)
    } else if starts_with(line, DIFF_SIGN_LINE_DEFAULT) {
        Line::LineChange(Change::Default)
    } else if starts_with(line, DIFF_SIGN_LINE_DELETED) {
        Line::LineChange(Change::Deleted)
    } else {
        Line::Unknown
    }
}

/// The kind of a line, given as its characters.
pub fn classify(state: ParserState, line: &[char]) -> (kind: Line)
    ensures
        kind == line_kind(state, line@),
{
    match state {
        ParserState::Init => if starts_with(line, "diff") {
            Line::Command
        } else {
            Line::Unknown
        },
        ParserState::Command => if starts_with(line, "index") {
            Line::Index
        } else if starts_with(line, DIFF_SIGN_HEADER_ORIGIN) {
            Line::OrignPath
        } else {
            Line::Unknown
        },
        ParserState::Index => if starts_with(line, DIFF_SIGN_HEADER_ORIGIN) {
            Line::OrignPath
        } else {
            Line::Unknown
        },
        ParserState::OriginPath => if starts_with(line, DIFF_SIGN_HEADER_NEW) {
            Line::NewPath
        } else {
            Line::Unknown
        },
        ParserState::NewPath => if starts_with(line, DIFF_SIGN_HUNK) {
            Line::Hunk
        } else {
            Line::Unknown
        },
        ParserState::Hunk => sign_of(line),
        ParserState::LineChange(_) => if starts_with(line, "diff") {
            Line::Command
        } else if starts_with(line, "index") {
            Line::Index
        } else if starts_with(line, DIFF_SIGN_HEADER_ORIGIN) {
            Line::OrignPath
        } else if starts_with(line, DIFF_SIGN_HUNK) {
            Line::Hunk
        } else {
            sign_of(line)
        },
    }
}

/// The part of a line that is its content, between two positions of the
/// line, or the reason why the line is malformed.
pub fn content_span(line: &[char], kind: Line) -> (span: Result<(usize, usize), &'static str>)
    ensures
        match span {
            Ok((from, to)) => from <= to <= line@.len() && line_content(line@, kind) == Ok::<
                Seq<char>,
                Seq<char>,
            >(line@.subrange(from as int, to as int)),
            Err(reason) => line_content(line@, kind) == Err::<Seq<char>, Seq<char>>(reason@),
        },
{
    let n = line.len();
    proof {
        assert(line@.subrange(0, n as int) =~= line@);
    }
    match kind {
        Line::Command | Line::Unknown => Ok((0, n)),
        Line::Index => match cut_prefix(line, "index ") {
            Some(rest) => {
                Ok((n - rest.len(), n))
            },
            None => Err("expect line start with `index `"),
        },
        Line::OrignPath => match cut_prefix(line, "--- ") {
            Some(rest) => {
                Ok((n - rest.len(), n))
            },
            None => Err("expect line start with `--- `"),
        },
        Line::NewPath => match cut_prefix(line, "+++ ") {
            Some(rest) => {
                Ok((n - rest.len(), n))
            },
            None => Err("expect line start with `+++ `"),
        },
        Line::Hunk => match find_str(line, " @@") {
            Some(end) => {
                match cut_prefix(&line[0..end], "@@ ") {
                    Some(rest) => {
                        proof {
                            assert(line@.take(end as int).subrange(end - rest@.len(), end as int)
                                =~= line@.subrange(end - rest@.len(), end as int));
                        }
                        Ok((end - rest.len(), end))
                    },
                    None => Err("expect line start with `@@ `"),
                }
            },
            None => Err("cannot find hunk end with ` @@`"),
        },
        Line::LineChange(_) => if n > 0 {
            Ok((1, n))
        } else {
            Ok((0, n))
        },
    }
}

} // verus!
