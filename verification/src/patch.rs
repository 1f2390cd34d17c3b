//! The patch engine: what a diff makes of a text, forward and backward.

use crate::diff::{
    changes_view, hunks_view, Change, Diff, DiffError, DiffErrorKind, DiffErrorKindView,
    DiffErrorView, DiffHunk, DiffHunkView, DiffView, LineChange, LineChangeView,
};
use crate::scan::{decimal, decimal_text};
use crate::text::{join_lines, lines_of, split_lines, unlines};
use vstd::prelude::*;
use vstd::string::StringExecFns;

verus! {

/// The direction of a transformation.
#[derive(Debug, Clone, Copy, PartialEq, Eq, Structural)]
pub enum Mode {
    /// From the original text to the new text.
    Apply,
    /// From the new text back to the original text.
    Revert,
}

/// Whether a change of this kind stands for a line of the text that is read.
pub open spec fn consumes(kind: Change, mode: Mode) -> bool {
    match (kind, mode) {
        (Change::Default, _) => true,
        (Change::Deleted, Mode::Apply) => true,
        (Change::Added, Mode::Revert) => true,
        _ => false,
    }
}

/// Whether a change of this kind stands for a line of the text that is written.
pub open spec fn emits(kind: Change, mode: Mode) -> bool {
    match (kind, mode) {
        (Change::Default, _) => true,
        (Change::Added, Mode::Apply) => true,
        (Change::Deleted, Mode::Revert) => true,
        _ => false,
    }
}

/// The line number, counted from 1, at which a hunk begins in the text that is read.
pub open spec fn start_line(hunk: DiffHunkView, mode: Mode) -> nat {
    match mode {
        Mode::Apply => hunk.old_line,
        Mode::Revert => hunk.new_line,
    }
}

/// How far a transformation has come: the lines written so far, and the
/// position, counted from 0, of the next line to read.
pub struct Progress {
    pub out: Seq<Seq<char>>,
    pub cursor: nat,
}

/// The error for a text that has no line at `index`.
pub open spec fn no_line(index: nat) -> DiffErrorView {
    DiffErrorView {
        kind: DiffErrorKindView::InvalidIndex(index),
        reason: "cannot get line at "@ + decimal_text(index),
    }
}

/// The error for a context line that says `expected` where the text has `found`.
pub open spec fn unmatched(expected: Seq<char>, found: Seq<char>) -> DiffErrorView {
    DiffErrorView {
        kind: DiffErrorKindView::UnmatchedContent(expected, found),
        reason: "context line differs from the text, [expected: "@ + expected + "] [found: "@
            + found + "]"@,
    }
}

/// Copies the lines from the cursor up to, not including, position `upto`.
/// Nothing is copied when the cursor is there already or beyond. Fails when
/// the text ends before `upto`.
pub open spec fn pass_through(p: Progress, lines: Seq<Seq<char>>, upto: int) -> Result<
    Progress,
    DiffErrorView,
> {
    if p.cursor >= upto {
        Ok(p)
    } else if upto <= lines.len() {
        Ok(Progress { out: p.out + lines.subrange(p.cursor as int, upto), cursor: upto as nat })
    } else {
        Err(no_line(lines.len()))
    }
}

/// Carries out one change at the cursor. A change that stands for a line of
/// the text read needs that line to exist. A context line is copied from the
/// text; on the way back it must also be the line that the change recorded.
pub open spec fn change_step(p: Progress, lines: Seq<Seq<char>>, c: LineChangeView, mode: Mode) -> Result<
    Progress,
    DiffErrorView,
> {
    if !consumes(c.kind, mode) {
        Ok(Progress { out: p.out.push(c.content), cursor: p.cursor })
    } else if p.cursor >= lines.len() {
        Err(no_line(p.cursor))
    } else if !emits(c.kind, mode) {
        Ok(Progress { out: p.out, cursor: p.cursor + 1 })
    } else if mode == Mode::Revert && lines[p.cursor as int] != c.content {
        Err(unmatched(c.content, lines[p.cursor as int]))
    } else {
        Ok(Progress { out: p.out.push(lines[p.cursor as int]), cursor: p.cursor + 1 })
    }
}

/// Carries out the changes in order, stopping at the first that fails.
pub open spec fn changes_run(
    p: Progress,
    lines: Seq<Seq<char>>,
    changes: Seq<LineChangeView>,
    mode: Mode,
) -> Result<Progress, DiffErrorView>
    decreases changes.len(),
{
    if changes.len() == 0 {
        Ok(p)
    } else {
        match change_step(p, lines, changes[0], mode) {
            Ok(q) => changes_run(q, lines, changes.drop_first(), mode),
            Err(e) => Err(e),
        }
    }
}

/// Carries out one hunk: the untouched lines before it, then its changes.
pub open spec fn hunk_step(p: Progress, lines: Seq<Seq<char>>, hunk: DiffHunkView, mode: Mode) -> Result<
    Progress,
    DiffErrorView,
> {
    match pass_through(p, lines, start_line(hunk, mode) - 1) {
        Ok(q) => changes_run(q, lines, hunk.change, mode),
        Err(e) => Err(e),
    }
}

/// Carries out the hunks in order, stopping at the first that fails.
pub open spec fn hunks_run(
    p: Progress,
    lines: Seq<Seq<char>>,
    hunks: Seq<DiffHunkView>,
    mode: Mode,
) -> Result<Progress, DiffErrorView>
    decreases hunks.len(),
{
    if hunks.len() == 0 {
        Ok(p)
    } else {
        match hunk_step(p, lines, hunks[0], mode) {
            Ok(q) => hunks_run(q, lines, hunks.drop_first(), mode),
            Err(e) => Err(e),
        }
    }
}

/// The lines that the hunks make of `lines`: all hunks from the first line
/// on, then the lines that are left.
pub open spec fn patch_lines(hunks: Seq<DiffHunkView>, lines: Seq<Seq<char>>, mode: Mode) -> Result<
    Seq<Seq<char>>,
    DiffErrorView,
> {
    match hunks_run(Progress { out: Seq::empty(), cursor: 0 }, lines, hunks, mode) {
        Ok(p) => Ok(p.out + lines.subrange(p.cursor as int, lines.len() as int)),
        Err(e) => Err(e),
    }
}

/// The text that a diff makes of `text`. Every line of the result ends with
/// a line feed, whether or not the last line of `text` did.
pub open spec fn patch_text(diff: DiffView, text: Seq<char>, mode: Mode) -> Result<
    Seq<char>,
    DiffErrorView,
> {
    match patch_lines(diff.hunk, lines_of(text), mode) {
        Ok(lines) => Ok(unlines(lines)),
        Err(e) => Err(e),
    }
}

/// The progress that the engine's variables stand for.
pub open spec fn progress_of(out: Vec<&str>, cursor: usize) -> Progress {
    Progress { out: out.deep_view(), cursor: cursor as nat }
}

fn no_line_error(index: usize) -> (e: DiffError)
    ensures
        e@ == no_line(index as nat),
{
    let mut reason = String::from_str("cannot get line at ");
    reason.append(decimal(index).as_str());
    DiffError { kind: DiffErrorKind::InvalidIndex(index), reason }
}

fn unmatched_error(expected: &str, found: &str) -> (e: DiffError)
    ensures
        e@ == unmatched(expected@, found@),
{
    let mut reason = String::from_str("context line differs from the text, [expected: ");
    reason.append(expected);
    reason.append("] [found: ");
    reason.append(found);
    reason.append("]");
    DiffError {
        kind: DiffErrorKind::UnmatchedContent(String::from_str(expected), String::from_str(found)),
        reason,
    }
}

fn copy_through<'a>(
    lines: &'a Vec<String>,
    out: &mut Vec<&'a str>,
    cursor: &mut usize,
    upto: usize,
) -> (r: Result<(), DiffError>)
    requires
        *old(cursor) <= lines@.len(),
    ensures
        *final(cursor) <= lines@.len(),
        match r {
            Ok(()) => pass_through(progress_of(*old(out), *old(cursor)), lines.deep_view(), upto as int)
                == Ok::<Progress, DiffErrorView>(progress_of(*final(out), *final(cursor))),
            Err(e) => pass_through(progress_of(*old(out), *old(cursor)), lines.deep_view(), upto as int)
                == Err::<Progress, DiffErrorView>(e@),
        },
{
    let ghost first = *cursor;
    let ghost before = out.deep_view();
    proof {
        assert(before + lines.deep_view().subrange(first as int, first as int) =~= before);
    }
    while *cursor < upto
        invariant
            first == *old(cursor),
            before == old(out).deep_view(),
            first <= *cursor <= lines@.len(),
            first < upto ==> *cursor <= upto,
            first >= upto ==> *cursor == first,
            out.deep_view() == before + lines.deep_view().subrange(first as int, *cursor as int),
        decreases upto - *cursor,
    {
        if *cursor >= lines.len() {
            return Err(no_line_error(*cursor));
        }
        let ghost copied = lines.deep_view().subrange(first as int, *cursor as int);
        out.push(lines[*cursor].as_str());
        proof {
            assert(lines.deep_view().subrange(first as int, *cursor + 1) =~= copied.push(
                lines@[*cursor as int]@,
            ));
            assert(out.deep_view() =~= (before + copied).push(lines@[*cursor as int]@));
        }
        *cursor += 1;
    }
    proof {
        assert(before + lines.deep_view().subrange(first as int, first as int) =~= before);
    }
    Ok(())
}

fn copy_rest<'a>(lines: &'a Vec<String>, out: &mut Vec<&'a str>, cursor: usize)
    requires
        cursor <= lines@.len(),
    ensures
        final(out).deep_view() == old(out).deep_view() + lines.deep_view().subrange(
            cursor as int,
            lines@.len() as int,
        ),
{
    let ghost before = out.deep_view();
    let mut k: usize = cursor;
    proof {
        assert(before + lines.deep_view().subrange(cursor as int, cursor as int) =~= before);
    }
    while k < lines.len()
        invariant
            cursor <= k <= lines@.len(),
            out.deep_view() == before + lines.deep_view().subrange(cursor as int, k as int),
        decreases lines@.len() - k,
    {
        let ghost copied = lines.deep_view().subrange(cursor as int, k as int);
        out.push(lines[k].as_str());
        proof {
            assert(lines.deep_view().subrange(cursor as int, k + 1) =~= copied.push(
                lines@[k as int]@,
            ));
            assert(out.deep_view() =~= (before + copied).push(lines@[k as int]@));
        }
        k += 1;
    }
}

fn step_change<'a>(
    lines: &'a Vec<String>,
    out: &mut Vec<&'a str>,
    cursor: &mut usize,
    change: &'a LineChange,
    mode: Mode,
) -> (r: Result<(), DiffError>)
    requires
        *old(cursor) <= lines@.len(),
    ensures
        *final(cursor) <= lines@.len(),
        match r {
            Ok(()) => change_step(progress_of(*old(out), *old(cursor)), lines.deep_view(), change@, mode)
                == Ok::<Progress, DiffErrorView>(progress_of(*final(out), *final(cursor))),
            Err(e) => change_step(progress_of(*old(out), *old(cursor)), lines.deep_view(), change@, mode)
                == Err::<Progress, DiffErrorView>(e@),
        },
{
    let ghost before = out.deep_view();
    let reads = match (change.kind, mode) {
        (Change::Default, _) => true,
        (Change::Deleted, Mode::Apply) => true,
        (Change::Added, Mode::Revert) => true,
        _ => false,
    };
    if !reads {
        out.push(change.content.as_str());
        proof {
            assert(out.deep_view() =~= before.push(change.content@));
        }
        return Ok(());
    }
    if *cursor >= lines.len() {
        return Err(no_line_error(*cursor));
    }
    let line = lines[*cursor].as_str();
    match change.kind {
        Change::Default => {
            if mode == Mode::Revert && change.content != lines[*cursor] {
                return Err(unmatched_error(change.content.as_str(), line));
            }
            out.push(line);
            proof {
                assert(out.deep_view() =~= before.push(line@));
            }
        },
        _ => {},
    }
    *cursor += 1;
    Ok(())
}

fn run_changes<'a>(
    lines: &'a Vec<String>,
    out: &mut Vec<&'a str>,
    cursor: &mut usize,
    changes: &'a Vec<LineChange>,
    mode: Mode,
) -> (r: Result<(), DiffError>)
    requires
        *old(cursor) <= lines@.len(),
    ensures
        *final(cursor) <= lines@.len(),
        match r {
            Ok(()) => changes_run(
                progress_of(*old(out), *old(cursor)),
                lines.deep_view(),
                changes_view(changes@),
                mode,
            ) == Ok::<Progress, DiffErrorView>(progress_of(*final(out), *final(cursor))),
            Err(e) => changes_run(
                progress_of(*old(out), *old(cursor)),
                lines.deep_view(),
                changes_view(changes@),
                mode,
            ) == Err::<Progress, DiffErrorView>(e@),
        },
{
    let ghost all = changes_view(changes@);
    let ghost whole = changes_run(progress_of(*out, *cursor), lines.deep_view(), all, mode);
    let mut k: usize = 0;
    proof {
        assert(all.skip(0) =~= all);
    }
    while k < changes.len()
        invariant
            k <= changes@.len(),
            *cursor <= lines@.len(),
            all == changes_view(changes@),
            whole == changes_run(
                progress_of(*old(out), *old(cursor)),
                lines.deep_view(),
                all,
                mode,
            ),
            changes_run(progress_of(*out, *cursor), lines.deep_view(), all.skip(k as int), mode)
                == whole,
        decreases changes@.len() - k,
    {
        proof {
            assert(all.skip(k as int)[0] == changes@[k as int]@);
            assert(all.skip(k as int).drop_first() =~= all.skip(k + 1));
        }
        match step_change(lines, out, cursor, &changes[k], mode) {
            Ok(()) => {},
            Err(e) => {
                return Err(e);
            },
        }
        k += 1;
    }
    Ok(())
}

fn step_hunk<'a>(
    lines: &'a Vec<String>,
    out: &mut Vec<&'a str>,
    cursor: &mut usize,
    hunk: &'a DiffHunk,
    mode: Mode,
) -> (r: Result<(), DiffError>)
    requires
        *old(cursor) <= lines@.len(),
    ensures
        *final(cursor) <= lines@.len(),
        match r {
            Ok(()) => hunk_step(progress_of(*old(out), *old(cursor)), lines.deep_view(), hunk@, mode)
                == Ok::<Progress, DiffErrorView>(progress_of(*final(out), *final(cursor))),
            Err(e) => hunk_step(progress_of(*old(out), *old(cursor)), lines.deep_view(), hunk@, mode)
                == Err::<Progress, DiffErrorView>(e@),
        },
{
    let first = match mode {
        Mode::Apply => hunk.old_line,
        Mode::Revert => hunk.new_line,
    };
    if first > 0 {
        match copy_through(lines, out, cursor, first - 1) {
            Ok(()) => {},
            Err(e) => {
                return Err(e);
            },
        }
    }
    run_changes(lines, out, cursor, &hunk.change, mode)
}

fn run_hunks<'a>(
    lines: &'a Vec<String>,
    out: &mut Vec<&'a str>,
    cursor: &mut usize,
    hunks: &'a Vec<DiffHunk>,
    mode: Mode,
) -> (r: Result<(), DiffError>)
    requires
        *old(cursor) <= lines@.len(),
    ensures
        *final(cursor) <= lines@.len(),
        match r {
            Ok(()) => hunks_run(
                progress_of(*old(out), *old(cursor)),
                lines.deep_view(),
                hunks_view(hunks@),
                mode,
            ) == Ok::<Progress, DiffErrorView>(progress_of(*final(out), *final(cursor))),
            Err(e) => hunks_run(
                progress_of(*old(out), *old(cursor)),
                lines.deep_view(),
                hunks_view(hunks@),
                mode,
            ) == Err::<Progress, DiffErrorView>(e@),
        },
{
    let ghost all = hunks_view(hunks@);
    let ghost whole = hunks_run(progress_of(*out, *cursor), lines.deep_view(), all, mode);
    let mut k: usize = 0;
    proof {
        assert(all.skip(0) =~= all);
    }
    while k < hunks.len()
        invariant
            k <= hunks@.len(),
            *cursor <= lines@.len(),
            all == hunks_view(hunks@),
            whole == hunks_run(progress_of(*old(out), *old(cursor)), lines.deep_view(), all, mode),
            hunks_run(progress_of(*out, *cursor), lines.deep_view(), all.skip(k as int), mode)
                == whole,
        decreases hunks@.len() - k,
    {
        proof {
            assert(all.skip(k as int)[0] == hunks@[k as int]@);
            assert(all.skip(k as int).drop_first() =~= all.skip(k + 1));
        }
        match step_hunk(lines, out, cursor, &hunks[k], mode) {
            Ok(()) => {},
            Err(e) => {
                return Err(e);
            },
        }
        k += 1;
    }
    Ok(())
}

impl Diff {
    /// Transforms `text` in the direction `mode`: each hunk in turn, with the
    /// lines between the hunks and after the last copied unchanged.
    pub fn patch(&self, text: &str, mode: Mode) -> (r: Result<String, DiffError>)
        ensures
            match r {
                Ok(patched) => patch_text(self@, text@, mode) == Ok::<Seq<char>, DiffErrorView>(
                    patched@,
                ),
                Err(e) => patch_text(self@, text@, mode) == Err::<Seq<char>, DiffErrorView>(e@),
            },
    {
        let lines = split_lines(text);
        let mut out: Vec<&str> = Vec::new();
        let mut cursor: usize = 0;
        proof {
            assert(out.deep_view() =~= Seq::<Seq<char>>::empty());
        }
        match run_hunks(&lines, &mut out, &mut cursor, &self.hunk, mode) {
            Ok(()) => {},
            Err(e) => {
                return Err(e);
            },
        }
        copy_rest(&lines, &mut out, cursor);
        Ok(join_lines(&out))
    }

    /// Transforms the original text into the new text. A context line is
    /// copied from `original` as it is found there, whatever the hunk recorded.
    pub fn apply(&self, original: &str) -> (r: Result<String, DiffError>)
        ensures
            match r {
                Ok(applied) => patch_text(self@, original@, Mode::Apply) == Ok::<
                    Seq<char>,
                    DiffErrorView,
                >(applied@),
                Err(e) => patch_text(self@, original@, Mode::Apply) == Err::<
                    Seq<char>,
                    DiffErrorView,
                >(e@),
            },
    {
        self.patch(original, Mode::Apply)
    }

    /// Transforms the new text back into the original text. A context line
    /// must be found in `applied` exactly as the hunk recorded it.
    pub fn revert(&self, applied: &str) -> (r: Result<String, DiffError>)
        ensures
            match r {
                Ok(original) => patch_text(self@, applied@, Mode::Revert) == Ok::<
                    Seq<char>,
                    DiffErrorView,
                >(original@),
                Err(e) => patch_text(self@, applied@, Mode::Revert) == Err::<
                    Seq<char>,
                    DiffErrorView,
                >(e@),
            },
    {
        self.patch(applied, Mode::Revert)
    }
}

} // verus!
