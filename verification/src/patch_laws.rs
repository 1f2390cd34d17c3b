//! What holds of the patch engine: a diff that describes how one text
//! becomes another carries the first to the second and back; an altered
//! context line stops the way back; a hunk that reaches past the end of
//! the text stops either way.

use crate::diff::{Change, DiffErrorKindView, DiffErrorView, DiffHunkView, DiffView, LineChangeView};
use crate::patch::{
    change_step, changes_run, consumes, hunk_step, hunks_run, no_line, pass_through, patch_lines,
    patch_text, start_line, unmatched, Mode, Progress,
};
use crate::text::{lines_of, unlines};
use crate::text_laws::{lemma_join_of_lines, lemma_lines_of_join, newline_terminated, plain_line};
use vstd::prelude::*;

verus! {

/// The other direction.
pub open spec fn opposite(mode: Mode) -> Mode {
    match mode {
        Mode::Apply => Mode::Revert,
        Mode::Revert => Mode::Apply,
    }
}

/// The lines that the changes of a hunk stand for in the text that is read
/// in direction `mode`: forward, the context and deleted lines; backward,
/// the context and added lines.
pub open spec fn side(changes: Seq<LineChangeView>, mode: Mode) -> Seq<Seq<char>>
    decreases changes.len(),
{
    if changes.len() == 0 {
        Seq::empty()
    } else if consumes(changes[0].kind, mode) {
        seq![changes[0].content] + side(changes.drop_first(), mode)
    } else {
        side(changes.drop_first(), mode)
    }
}

/// The position, counted from 0, of the line with the given number,
/// counted from 1. Number 0 stands for the first position too.
pub open spec fn origin(line: nat) -> int {
    if line == 0 {
        0
    } else {
        line - 1
    }
}

/// Whether the hunks describe, from position `i` of `a` and position `j` of
/// `b` on, how `a` becomes `b`: each hunk in turn begins at or behind the
/// position reached, in both texts; the lines before it are the same in
/// both; at its place `a` holds the hunk's context and deleted lines, and
/// `b` its context and added lines; and behind the last hunk both texts
/// hold the same lines.
pub open spec fn describes_from(
    hunks: Seq<DiffHunkView>,
    a: Seq<Seq<char>>,
    b: Seq<Seq<char>>,
    i: int,
    j: int,
) -> bool
    decreases hunks.len(),
{
    if hunks.len() == 0 {
        &&& 0 <= i <= a.len()
        &&& 0 <= j <= b.len()
        &&& a.subrange(i, a.len() as int) == b.subrange(j, b.len() as int)
    } else {
        let old = side(hunks[0].change, Mode::Apply);
        let new = side(hunks[0].change, Mode::Revert);
        let s = origin(hunks[0].old_line);
        let t = origin(hunks[0].new_line);
        &&& 0 <= i <= s
        &&& 0 <= j <= t
        &&& s + old.len() <= a.len()
        &&& t + new.len() <= b.len()
        &&& a.subrange(i, s) == b.subrange(j, t)
        &&& a.subrange(s, s + old.len()) == old
        &&& b.subrange(t, t + new.len()) == new
        &&& describes_from(hunks.drop_first(), a, b, s + old.len(), t + new.len())
    }
}

/// Whether the hunks fully and correctly describe how the lines `a` become
/// the lines `b`.
pub open spec fn describes(hunks: Seq<DiffHunkView>, a: Seq<Seq<char>>, b: Seq<Seq<char>>) -> bool {
    describes_from(hunks, a, b, 0, 0)
}

/// Where the text read holds, at the cursor, the lines that the changes stand
/// for, the changes go through: they write the lines that they stand for in
/// the other text, and move the cursor past the lines read.
pub proof fn lemma_changes_fit(
    changes: Seq<LineChangeView>,
    lines: Seq<Seq<char>>,
    p: Progress,
    mode: Mode,
)
    requires
        p.cursor + side(changes, mode).len() <= lines.len(),
        lines.subrange(p.cursor as int, (p.cursor + side(changes, mode).len()) as int) == side(
            changes,
            mode,
        ),
    ensures
        changes_run(p, lines, changes, mode) == Ok::<Progress, DiffErrorView>(
            Progress {
                out: p.out + side(changes, opposite(mode)),
                cursor: p.cursor + side(changes, mode).len(),
            },
        ),
    decreases changes.len(),
{
    if changes.len() == 0 {
        assert(p.out + side(changes, opposite(mode)) =~= p.out);
    } else {
        let x = changes[0];
        let rest = changes.drop_first();
        let read = side(changes, mode);
        let c = p.cursor as int;
        if consumes(x.kind, mode) {
            assert(read[0] == x.content);
            assert(lines.subrange(c, c + read.len())[0] == lines[c]);
            assert(lines.subrange(c + 1, c + 1 + side(rest, mode).len()) =~= side(rest, mode)) by {
                assert forall|k: int| 0 <= k < side(rest, mode).len() implies lines[c + 1 + k]
                    == side(rest, mode)[k] by {
                    assert(lines.subrange(c, c + read.len())[k + 1] == read[k + 1]);
                }
            }
        }
        let q = change_step(p, lines, x, mode)->Ok_0;
        assert(change_step(p, lines, x, mode) is Ok);
        lemma_changes_fit(rest, lines, q, mode);
        assert(q.out + side(rest, opposite(mode)) =~= p.out + side(changes, opposite(mode)));
    }
}

/// The text that is read in direction `mode`, of the original `a` and the new `b`.
pub open spec fn read_text(a: Seq<Seq<char>>, b: Seq<Seq<char>>, mode: Mode) -> Seq<Seq<char>> {
    match mode {
        Mode::Apply => a,
        Mode::Revert => b,
    }
}

/// Hunks that describe how `a` becomes `b` from given positions on go
/// through in both directions; what is written, with the lines left to read,
/// makes the rest of the other text.
pub proof fn lemma_hunks_describe(
    hunks: Seq<DiffHunkView>,
    a: Seq<Seq<char>>,
    b: Seq<Seq<char>>,
    i: int,
    j: int,
    out: Seq<Seq<char>>,
    mode: Mode,
)
    requires
        describes_from(hunks, a, b, i, j),
    ensures
        ({
            let src = read_text(a, b, mode);
            let dst = read_text(a, b, opposite(mode));
            let from = if mode == Mode::Apply {
                i
            } else {
                j
            };
            let to = if mode == Mode::Apply {
                j
            } else {
                i
            };
            &&& 0 <= from <= src.len()
            &&& 0 <= to <= dst.len()
            &&& hunks_run(Progress { out, cursor: from as nat }, src, hunks, mode) matches Ok(q)
            &&& q.cursor <= src.len()
            &&& q.out + src.subrange(q.cursor as int, src.len() as int) == out + dst.subrange(
                to,
                dst.len() as int,
            )
        }),
    decreases hunks.len(),
{
    let src = read_text(a, b, mode);
    let dst = read_text(a, b, opposite(mode));
    let from = if mode == Mode::Apply {
        i
    } else {
        j
    };
    let to = if mode == Mode::Apply {
        j
    } else {
        i
    };
    if hunks.len() == 0 {
    } else {
        let h = hunks[0];
        let read = side(h.change, mode);
        let written = side(h.change, opposite(mode));
        let s = origin(start_line(h, mode));
        let t = origin(start_line(h, opposite(mode)));
        assert(from <= s && to <= t);
        assert(s + read.len() <= src.len() && t + written.len() <= dst.len());
        assert(src.subrange(from, s) == dst.subrange(to, t));
        assert(src.subrange(s, s + read.len()) == read);
        assert(dst.subrange(t, t + written.len()) == written);
        let p = Progress { out, cursor: from as nat };
        let copied = Progress { out: out + src.subrange(from, s), cursor: s as nat };
        assert(pass_through(p, src, start_line(h, mode) - 1) == Ok::<Progress, DiffErrorView>(
            copied,
        )) by {
            if from == s {
                assert(out + src.subrange(from, s) =~= out);
            }
        }
        lemma_changes_fit(h.change, src, copied, mode);
        let after = Progress { out: copied.out + written, cursor: (s + read.len()) as nat };
        assert(hunk_step(p, src, h, mode) == Ok::<Progress, DiffErrorView>(after));
        if mode == Mode::Apply {
            lemma_hunks_describe(
                hunks.drop_first(),
                a,
                b,
                s + read.len(),
                t + written.len(),
                after.out,
                mode,
            );
        } else {
            lemma_hunks_describe(
                hunks.drop_first(),
                a,
                b,
                t + written.len(),
                s + read.len(),
                after.out,
                mode,
            );
        }
        assert(after.out + dst.subrange(t + written.len(), dst.len() as int) =~= out
            + dst.subrange(to, dst.len() as int)) by {
            assert(dst.subrange(to, dst.len() as int) =~= dst.subrange(to, t) + dst.subrange(
                t,
                t + written.len(),
            ) + dst.subrange(t + written.len(), dst.len() as int));
        }
    }
}

/// Round trip, on lines: hunks that describe how `a` becomes `b` make `b` of
/// `a` forward and `a` of `b` backward.
pub proof fn lemma_round_trip_lines(hunks: Seq<DiffHunkView>, a: Seq<Seq<char>>, b: Seq<Seq<char>>)
    requires
        describes(hunks, a, b),
    ensures
        patch_lines(hunks, a, Mode::Apply) == Ok::<Seq<Seq<char>>, DiffErrorView>(b),
        patch_lines(hunks, b, Mode::Revert) == Ok::<Seq<Seq<char>>, DiffErrorView>(a),
{
    let none = Seq::<Seq<char>>::empty();
    lemma_hunks_describe(hunks, a, b, 0, 0, none, Mode::Apply);
    lemma_hunks_describe(hunks, a, b, 0, 0, none, Mode::Revert);
    assert(none + b.subrange(0, b.len() as int) =~= b);
    assert(none + a.subrange(0, a.len() as int) =~= a);
}

/// Round trip: where the hunks of a diff describe how the lines of
/// `original` become the lines of `applied`, applying the diff to `original`
/// gives the lines of `applied`, and reverting it on `applied` gives the
/// lines of `original`, each line ended by one line feed.
pub proof fn lemma_round_trip(diff: DiffView, original: Seq<char>, applied: Seq<char>)
    requires
        describes(diff.hunk, lines_of(original), lines_of(applied)),
    ensures
        patch_text(diff, original, Mode::Apply) == Ok::<Seq<char>, DiffErrorView>(
            unlines(lines_of(applied)),
        ),
        patch_text(diff, applied, Mode::Revert) == Ok::<Seq<char>, DiffErrorView>(
            unlines(lines_of(original)),
        ),
{
    lemma_round_trip_lines(diff.hunk, lines_of(original), lines_of(applied));
}

/// Round trip, to the character: where moreover every line of both texts
/// ends with a plain line feed, applying gives `applied` itself, and
/// reverting what applying gave returns `original` itself.
pub proof fn lemma_round_trip_exact(diff: DiffView, original: Seq<char>, applied: Seq<char>)
    requires
        describes(diff.hunk, lines_of(original), lines_of(applied)),
        newline_terminated(original),
        newline_terminated(applied),
    ensures
        patch_text(diff, original, Mode::Apply) == Ok::<Seq<char>, DiffErrorView>(applied),
        patch_text(diff, applied, Mode::Revert) == Ok::<Seq<char>, DiffErrorView>(original),
        patch_text(diff, patch_text(diff, original, Mode::Apply)->Ok_0, Mode::Revert) == Ok::<
            Seq<char>,
            DiffErrorView,
        >(original),
{
    lemma_round_trip(diff, original, applied);
    lemma_join_of_lines(original);
    lemma_join_of_lines(applied);
}

/// Where a hunk begins when the cursor stands at `cursor`: at the origin of
/// its line, or at the cursor where that origin lies before it.
pub open spec fn landing(cursor: nat, line: nat) -> nat {
    if cursor >= line - 1 {
        cursor
    } else {
        (line - 1) as nat
    }
}

/// Whether the hunks tell the truth of the lines `a`, from the cursor `i`
/// on and with `j` lines written: where applying takes a hunk up, `a` holds
/// the hunk's context and deleted lines, and the hunk's new start is where
/// applying writes the first line of the hunk.
pub open spec fn truthful_from(hunks: Seq<DiffHunkView>, a: Seq<Seq<char>>, i: nat, j: nat) -> bool
    decreases hunks.len(),
{
    if hunks.len() == 0 {
        true
    } else {
        let at = landing(i, hunks[0].old_line);
        let old = side(hunks[0].change, Mode::Apply);
        let new = side(hunks[0].change, Mode::Revert);
        &&& at + old.len() <= a.len()
        &&& a.subrange(at as int, (at + old.len()) as int) == old
        &&& landing(j, hunks[0].new_line) == j + (at - i)
        &&& truthful_from(
            hunks.drop_first(),
            a,
            at + old.len(),
            (j + (at - i) + new.len()) as nat,
        )
    }
}

/// Whether the hunks tell the truth of the lines `a`.
pub open spec fn truthful(hunks: Seq<DiffHunkView>, a: Seq<Seq<char>>) -> bool {
    truthful_from(hunks, a, 0, 0)
}

/// Changes that go through keep the lines written before them.
pub proof fn lemma_changes_extend(
    p: Progress,
    lines: Seq<Seq<char>>,
    changes: Seq<LineChangeView>,
    mode: Mode,
)
    ensures
        changes_run(p, lines, changes, mode) matches Ok(q) ==> p.out.len() <= q.out.len()
            && q.out.subrange(0, p.out.len() as int) == p.out,
    decreases changes.len(),
{
    if changes.len() == 0 {
        assert(p.out.subrange(0, p.out.len() as int) =~= p.out);
    } else {
        match change_step(p, lines, changes[0], mode) {
            Ok(m) => {
                lemma_changes_extend(m, lines, changes.drop_first(), mode);
                if let Ok(q) = changes_run(m, lines, changes.drop_first(), mode) {
                    assert(q.out.subrange(0, p.out.len() as int) =~= q.out.subrange(
                        0,
                        m.out.len() as int,
                    ).subrange(0, p.out.len() as int));
                    assert(m.out.subrange(0, p.out.len() as int) =~= p.out);
                }
            },
            Err(e) => {},
        }
    }
}

/// Hunks that go through keep the lines written before them.
pub proof fn lemma_hunks_extend(
    p: Progress,
    lines: Seq<Seq<char>>,
    hunks: Seq<DiffHunkView>,
    mode: Mode,
)
    ensures
        hunks_run(p, lines, hunks, mode) matches Ok(q) ==> p.out.len() <= q.out.len()
            && q.out.subrange(0, p.out.len() as int) == p.out,
    decreases hunks.len(),
{
    if hunks.len() == 0 {
        assert(p.out.subrange(0, p.out.len() as int) =~= p.out);
    } else {
        match hunk_step(p, lines, hunks[0], mode) {
            Ok(m) => {
                let copied = pass_through(p, lines, start_line(hunks[0], mode) - 1)->Ok_0;
                lemma_changes_extend(copied, lines, hunks[0].change, mode);
                assert(m.out.subrange(0, p.out.len() as int) =~= p.out) by {
                    assert(copied.out.subrange(0, p.out.len() as int) =~= p.out);
                    assert(m.out.subrange(0, p.out.len() as int) =~= m.out.subrange(
                        0,
                        copied.out.len() as int,
                    ).subrange(0, p.out.len() as int));
                }
                lemma_hunks_extend(m, lines, hunks.drop_first(), mode);
                if let Ok(q) = hunks_run(m, lines, hunks.drop_first(), mode) {
                    assert(q.out.subrange(0, p.out.len() as int) =~= q.out.subrange(
                        0,
                        m.out.len() as int,
                    ).subrange(0, p.out.len() as int));
                }
            },
            Err(e) => {},
        }
    }
}

/// Applying takes the first of hunks that tell the truth: the lines up to
/// where the hunk begins are copied, and the hunk's context and added lines
/// are written.
pub proof fn lemma_truthful_hunk_applies(
    hunks: Seq<DiffHunkView>,
    a: Seq<Seq<char>>,
    p: Progress,
)
    requires
        hunks.len() > 0,
        p.cursor <= a.len(),
        truthful_from(hunks, a, p.cursor, p.out.len()),
    ensures
        hunk_step(p, a, hunks[0], Mode::Apply) == Ok::<Progress, DiffErrorView>(
            Progress {
                out: p.out + a.subrange(
                    p.cursor as int,
                    landing(p.cursor, hunks[0].old_line) as int,
                ) + side(hunks[0].change, Mode::Revert),
                cursor: landing(p.cursor, hunks[0].old_line) + side(
                    hunks[0].change,
                    Mode::Apply,
                ).len(),
            },
        ),
{
    let h = hunks[0];
    let at = landing(p.cursor, h.old_line);
    let copied = Progress { out: p.out + a.subrange(p.cursor as int, at as int), cursor: at };
    assert(pass_through(p, a, h.old_line - 1) == Ok::<Progress, DiffErrorView>(copied)) by {
        if at == p.cursor {
            assert(p.out + a.subrange(p.cursor as int, at as int) =~= p.out);
        }
    }
    lemma_changes_fit(h.change, a, copied, Mode::Apply);
}

/// Hunks that tell the truth apply.
pub proof fn lemma_truthful_applies(hunks: Seq<DiffHunkView>, a: Seq<Seq<char>>, p: Progress)
    requires
        p.cursor <= a.len(),
        truthful_from(hunks, a, p.cursor, p.out.len()),
    ensures
        hunks_run(p, a, hunks, Mode::Apply) matches Ok(q) && q.cursor <= a.len(),
    decreases hunks.len(),
{
    if hunks.len() > 0 {
        lemma_truthful_hunk_applies(hunks, a, p);
        let m = hunk_step(p, a, hunks[0], Mode::Apply)->Ok_0;
        lemma_truthful_applies(hunks.drop_first(), a, m);
    }
}

/// Two runs of lines that were written one after the other stand, each at
/// its place, in every sequence that begins with what was written.
proof fn lemma_written_stands(
    b: Seq<Seq<char>>,
    written: Seq<Seq<char>>,
    before: Seq<Seq<char>>,
    first: Seq<Seq<char>>,
    second: Seq<Seq<char>>,
)
    requires
        written == before + first + second,
        written.len() <= b.len(),
        b.subrange(0, written.len() as int) == written,
    ensures
        b.subrange(before.len() as int, (before.len() + first.len()) as int) == first,
        b.subrange(
            (before.len() + first.len()) as int,
            (before.len() + first.len() + second.len()) as int,
        ) == second,
{
    let from = before.len() as int;
    let mid = from + first.len();
    let to = mid + second.len();
    assert(b.subrange(from, mid) =~= b.subrange(0, written.len() as int).subrange(from, mid));
    assert(written.subrange(from, mid) =~= first);
    assert(b.subrange(mid, to) =~= b.subrange(0, written.len() as int).subrange(mid, to));
    assert(written.subrange(mid, to) =~= second);
}

/// Reverting takes a hunk where the text read holds, at the cursor, the
/// lines that applying copied before the hunk and then the hunk's context
/// and added lines: it writes the lines copied and the hunk's context and
/// deleted lines.
proof fn lemma_hunk_reverts(
    hunk: DiffHunkView,
    b: Seq<Seq<char>>,
    back: Seq<Seq<char>>,
    j: nat,
    copied: Seq<Seq<char>>,
)
    requires
        landing(j, hunk.new_line) == j + copied.len(),
        j + copied.len() + side(hunk.change, Mode::Revert).len() <= b.len(),
        b.subrange(j as int, (j + copied.len()) as int) == copied,
        b.subrange(
            (j + copied.len()) as int,
            (j + copied.len() + side(hunk.change, Mode::Revert).len()) as int,
        ) == side(hunk.change, Mode::Revert),
    ensures
        hunk_step(Progress { out: back, cursor: j }, b, hunk, Mode::Revert) == Ok::<
            Progress,
            DiffErrorView,
        >(
            Progress {
                out: back + copied + side(hunk.change, Mode::Apply),
                cursor: j + copied.len() + side(hunk.change, Mode::Revert).len(),
            },
        ),
{
    let to = landing(j, hunk.new_line);
    let start = Progress { out: back, cursor: j };
    let passed = Progress { out: back + copied, cursor: to };
    assert(pass_through(start, b, hunk.new_line - 1) == Ok::<Progress, DiffErrorView>(passed)) by {
        if to == j {
            assert(copied =~= Seq::<Seq<char>>::empty());
            assert(back + copied =~= back);
        }
    }
    lemma_changes_fit(hunk.change, b, passed, Mode::Revert);
}

/// What hunks that tell the truth have applied, they revert: where `b` is
/// what applying makes of `a` from the cursor `p.cursor` on, reverting on
/// `b` from the position `p.out.len()` on goes through, and what it writes,
/// with the lines of `b` left to read, is what it had written with the
/// lines of `a` from the cursor on.
pub proof fn lemma_truthful_reverts(
    hunks: Seq<DiffHunkView>,
    a: Seq<Seq<char>>,
    p: Progress,
    b: Seq<Seq<char>>,
    back: Seq<Seq<char>>,
)
    requires
        p.cursor <= a.len(),
        truthful_from(hunks, a, p.cursor, p.out.len()),
        hunks_run(p, a, hunks, Mode::Apply) matches Ok(q) && b == q.out + a.subrange(
            q.cursor as int,
            a.len() as int,
        ),
    ensures
        hunks_run(Progress { out: back, cursor: p.out.len() }, b, hunks, Mode::Revert) matches Ok(
            r,
        ) && r.cursor <= b.len() && r.out + b.subrange(r.cursor as int, b.len() as int) == back
            + a.subrange(p.cursor as int, a.len() as int),
    decreases hunks.len(),
{
    let j = p.out.len();
    let i = p.cursor;
    if hunks.len() == 0 {
        assert(b.subrange(j as int, b.len() as int) =~= a.subrange(i as int, a.len() as int));
    } else {
        let h = hunks[0];
        let rest = hunks.drop_first();
        let at = landing(i, h.old_line);
        let old = side(h.change, Mode::Apply);
        let new = side(h.change, Mode::Revert);
        let copied = a.subrange(i as int, at as int);
        lemma_truthful_hunk_applies(hunks, a, p);
        let m = Progress { out: p.out + copied + new, cursor: at + old.len() };
        lemma_truthful_applies(rest, a, m);
        let q = hunks_run(m, a, rest, Mode::Apply)->Ok_0;
        lemma_hunks_extend(m, a, rest, Mode::Apply);
        assert(b.subrange(0, m.out.len() as int) == m.out) by {
            assert(b.subrange(0, m.out.len() as int) =~= q.out.subrange(0, m.out.len() as int));
        }
        lemma_written_stands(b, m.out, p.out, copied, new);
        lemma_hunk_reverts(h, b, back, j, copied);
        let n = Progress { out: back + copied + old, cursor: j + copied.len() + new.len() };
        assert(hunk_step(Progress { out: back, cursor: j }, b, h, Mode::Revert) == Ok::<
            Progress,
            DiffErrorView,
        >(n));
        lemma_truthful_reverts(rest, a, m, b, n.out);
        assert(n.out + a.subrange((at + old.len()) as int, a.len() as int) =~= back + a.subrange(
            i as int,
            a.len() as int,
        )) by {
            assert(a.subrange(i as int, a.len() as int) =~= copied + a.subrange(
                at as int,
                (at + old.len()) as int,
            ) + a.subrange((at + old.len()) as int, a.len() as int));
        }
    }
}

/// Round trip from what applying gives, on lines: hunks that tell the truth
/// of `a` apply to `a`, and reverting on what applying gave returns `a`.
pub proof fn lemma_applied_lines_revert(hunks: Seq<DiffHunkView>, a: Seq<Seq<char>>)
    requires
        truthful(hunks, a),
    ensures
        patch_lines(hunks, a, Mode::Apply) matches Ok(b) && patch_lines(hunks, b, Mode::Revert)
            == Ok::<Seq<Seq<char>>, DiffErrorView>(a),
{
    let none = Seq::<Seq<char>>::empty();
    let p = Progress { out: none, cursor: 0 };
    lemma_truthful_applies(hunks, a, p);
    let b = patch_lines(hunks, a, Mode::Apply)->Ok_0;
    lemma_truthful_reverts(hunks, a, p, b, none);
    assert(none + a.subrange(0, a.len() as int) =~= a);
}

/// Round trip from what applying gives: where the hunks of a diff tell the
/// truth of the lines of `original`, and no line that applying gives holds a
/// line feed or ends with a carriage return, applying the diff to `original`
/// goes through, and reverting it on what applying gave returns the lines
/// of `original`, each ended by one line feed: `original` itself, where
/// every line of it ends with a plain line feed.
pub proof fn lemma_applied_text_reverts(diff: DiffView, original: Seq<char>)
    requires
        truthful(diff.hunk, lines_of(original)),
        forall|k: int|
            0 <= k < patch_lines(diff.hunk, lines_of(original), Mode::Apply)->Ok_0.len()
                ==> plain_line(
                #[trigger] patch_lines(diff.hunk, lines_of(original), Mode::Apply)->Ok_0[k],
            ),
    ensures
        patch_text(diff, original, Mode::Apply) matches Ok(applied) && patch_text(
            diff,
            applied,
            Mode::Revert,
        ) == Ok::<Seq<char>, DiffErrorView>(unlines(lines_of(original))),
        newline_terminated(original) ==> patch_text(
            diff,
            patch_text(diff, original, Mode::Apply)->Ok_0,
            Mode::Revert,
        ) == Ok::<Seq<char>, DiffErrorView>(original),
{
    lemma_applied_lines_revert(diff.hunk, lines_of(original));
    lemma_lines_of_join(patch_lines(diff.hunk, lines_of(original), Mode::Apply)->Ok_0);
    if newline_terminated(original) {
        lemma_join_of_lines(original);
    }
}

/// The position in the text read at which the change at position `c` of a
/// hunk finds its line, when the hunk begins where its header says.
pub open spec fn place(hunk: DiffHunkView, c: int, mode: Mode) -> int {
    origin(start_line(hunk, mode)) + side(hunk.change.take(c), mode).len()
}

/// Where the text holds at the cursor the lines that the changes stand for
/// backward, but for another line in the place of one context line, the
/// changes stop at that line with the two lines in the error.
pub proof fn lemma_changes_altered(
    changes: Seq<LineChangeView>,
    lines: Seq<Seq<char>>,
    p: Progress,
    c: int,
    found: Seq<char>,
)
    requires
        p.cursor + side(changes, Mode::Revert).len() <= lines.len(),
        lines.subrange(p.cursor as int, (p.cursor + side(changes, Mode::Revert).len()) as int)
            == side(changes, Mode::Revert),
        0 <= c < changes.len(),
        changes[c].kind == Change::Default,
        found != changes[c].content,
    ensures
        ({
            let k = (p.cursor + side(changes.take(c), Mode::Revert).len()) as int;
            &&& k < p.cursor + side(changes, Mode::Revert).len()
            &&& lines[k] == changes[c].content
            &&& changes_run(p, lines.update(k, found), changes, Mode::Revert) == Err::<
                Progress,
                DiffErrorView,
            >(unmatched(changes[c].content, found))
        }),
    decreases c,
{
    let mode = Mode::Revert;
    let x = changes[0];
    let rest = changes.drop_first();
    let read = side(changes, mode);
    let cur = p.cursor as int;
    let k = cur + side(changes.take(c), mode).len();
    let altered = lines.update(k, found);
    if c == 0 {
        assert(side(changes.take(0), mode) =~= Seq::<Seq<char>>::empty());
        assert(read[0] == x.content);
        assert(lines.subrange(cur, cur + read.len())[0] == lines[cur]);
    } else {
        assert(changes.take(c)[0] == x);
        assert(changes.take(c).drop_first() =~= rest.take(c - 1));
        assert(rest[c - 1] == changes[c]);
        if consumes(x.kind, mode) {
            assert(read[0] == x.content);
            assert(lines.subrange(cur, cur + read.len())[0] == lines[cur]);
            assert(lines.subrange(cur + 1, cur + 1 + side(rest, mode).len()) =~= side(rest, mode))
                by {
                assert forall|n: int| 0 <= n < side(rest, mode).len() implies lines[cur + 1 + n]
                    == side(rest, mode)[n] by {
                    assert(lines.subrange(cur, cur + read.len())[n + 1] == read[n + 1]);
                }
            }
        }
        let q = change_step(p, lines, x, mode)->Ok_0;
        assert(change_step(p, lines, x, mode) is Ok);
        lemma_changes_altered(rest, lines, q, c - 1, found);
        assert(change_step(p, altered, x, mode) == Ok::<Progress, DiffErrorView>(q));
    }
}

/// Where hunks describe how `a` becomes `b`, and one context line of `b` is
/// altered, the way back stops at that line.
pub proof fn lemma_hunks_altered(
    hunks: Seq<DiffHunkView>,
    a: Seq<Seq<char>>,
    b: Seq<Seq<char>>,
    i: int,
    j: int,
    out: Seq<Seq<char>>,
    h: int,
    c: int,
    found: Seq<char>,
)
    requires
        describes_from(hunks, a, b, i, j),
        0 <= h < hunks.len(),
        0 <= c < hunks[h].change.len(),
        hunks[h].change[c].kind == Change::Default,
        found != hunks[h].change[c].content,
    ensures
        ({
            let k = place(hunks[h], c, Mode::Revert);
            &&& j <= k < b.len()
            &&& b[k] == hunks[h].change[c].content
            &&& hunks_run(
                Progress { out, cursor: j as nat },
                b.update(k, found),
                hunks,
                Mode::Revert,
            ) == Err::<Progress, DiffErrorView>(unmatched(hunks[h].change[c].content, found))
        }),
    decreases h,
{
    let mode = Mode::Revert;
    let k = place(hunks[h], c, mode);
    let altered = b.update(k, found);
    let first = hunks[0];
    let new = side(first.change, mode);
    let old = side(first.change, Mode::Apply);
    let s = origin(first.old_line);
    let t = origin(first.new_line);
    let p = Progress { out, cursor: j as nat };
    let rest = hunks.drop_first();
    // The altered line lies in the text, at or behind the first hunk.
    if h == 0 {
        lemma_changes_altered(first.change, b, Progress { out, cursor: t as nat }, c, found);
    } else {
        assert(rest[h - 1] == hunks[h]);
        lemma_hunks_altered(rest, a, b, s + old.len(), t + new.len(), out, h - 1, c, found);
    }
    assert(altered.len() == b.len());
    let q = pass_through(p, altered, start_line(first, mode) - 1)->Ok_0;
    assert(pass_through(p, altered, start_line(first, mode) - 1) is Ok && q.cursor == t);
    if h == 0 {
        lemma_changes_altered(first.change, b, q, c, found);
    } else {
        let after = Progress { out: q.out + old, cursor: (t + new.len()) as nat };
        lemma_hunks_altered(rest, a, b, s + old.len(), t + new.len(), after.out, h - 1, c, found);
        assert(altered.subrange(t, t + new.len()) =~= b.subrange(t, t + new.len()));
        lemma_changes_fit(first.change, altered, q, mode);
        assert(hunk_step(p, altered, first, mode) == Ok::<Progress, DiffErrorView>(after));
    }
}

/// Revert checks its context lines, on lines: where the hunks describe how
/// `a` becomes `b`, and `found` stands in `b` in the place of a context line
/// of a hunk, reverting fails, and the error names the line that the hunk
/// recorded and the line found.
pub proof fn lemma_altered_context_lines(
    hunks: Seq<DiffHunkView>,
    a: Seq<Seq<char>>,
    b: Seq<Seq<char>>,
    h: int,
    c: int,
    found: Seq<char>,
)
    requires
        describes(hunks, a, b),
        0 <= h < hunks.len(),
        0 <= c < hunks[h].change.len(),
        hunks[h].change[c].kind == Change::Default,
        found != hunks[h].change[c].content,
    ensures
        0 <= place(hunks[h], c, Mode::Revert) < b.len(),
        b[place(hunks[h], c, Mode::Revert)] == hunks[h].change[c].content,
        patch_lines(hunks, b.update(place(hunks[h], c, Mode::Revert), found), Mode::Revert)
            == Err::<Seq<Seq<char>>, DiffErrorView>(unmatched(hunks[h].change[c].content, found)),
{
    lemma_hunks_altered(hunks, a, b, 0, 0, Seq::empty(), h, c, found);
}

/// Revert checks its context lines: where the hunks of a diff describe how
/// the lines of `original` become the lines of `applied`, and `altered` has
/// the lines of `applied` but for `found` in the place of a context line of
/// a hunk, reverting the diff on `altered` fails with a content mismatch
/// that names the line recorded and the line found.
pub proof fn lemma_altered_context(
    diff: DiffView,
    original: Seq<char>,
    applied: Seq<char>,
    altered: Seq<char>,
    h: int,
    c: int,
    found: Seq<char>,
)
    requires
        describes(diff.hunk, lines_of(original), lines_of(applied)),
        0 <= h < diff.hunk.len(),
        0 <= c < diff.hunk[h].change.len(),
        diff.hunk[h].change[c].kind == Change::Default,
        found != diff.hunk[h].change[c].content,
        lines_of(altered) == lines_of(applied).update(
            place(diff.hunk[h], c, Mode::Revert),
            found,
        ),
    ensures
        patch_text(diff, altered, Mode::Revert) == Err::<Seq<char>, DiffErrorView>(
            unmatched(diff.hunk[h].change[c].content, found),
        ),
        patch_text(diff, altered, Mode::Revert)->Err_0.kind == DiffErrorKindView::UnmatchedContent(
            diff.hunk[h].change[c].content,
            found,
        ),
{
    lemma_altered_context_lines(diff.hunk, lines_of(original), lines_of(applied), h, c, found);
}

/// Whether `e` is what a transformation of a text of `len` lines may fail
/// with: the text has no line at position `len`, or, on the way back only, a
/// context line differs.
pub open spec fn failure_of(e: DiffErrorView, len: nat, mode: Mode) -> bool {
    ||| e == no_line(len)
    ||| mode == Mode::Revert && e.kind is UnmatchedContent
}

/// Changes that go through move the cursor by the number of lines that they
/// stand for, and not past the end of the text.
pub proof fn lemma_changes_cursor(
    changes: Seq<LineChangeView>,
    lines: Seq<Seq<char>>,
    p: Progress,
    mode: Mode,
)
    requires
        p.cursor <= lines.len(),
    ensures
        match changes_run(p, lines, changes, mode) {
            Ok(q) => q.cursor == p.cursor + side(changes, mode).len() && q.cursor <= lines.len(),
            Err(e) => failure_of(e, lines.len(), mode),
        },
    decreases changes.len(),
{
    if changes.len() > 0 {
        match change_step(p, lines, changes[0], mode) {
            Ok(q) => {
                lemma_changes_cursor(changes.drop_first(), lines, q, mode);
            },
            Err(e) => {},
        }
    }
}

/// A hunk that goes through leaves the cursor at or behind its own origin
/// plus the number of lines that it stands for, and within the text.
pub proof fn lemma_hunk_cursor(hunk: DiffHunkView, lines: Seq<Seq<char>>, p: Progress, mode: Mode)
    requires
        p.cursor <= lines.len(),
    ensures
        match hunk_step(p, lines, hunk, mode) {
            Ok(q) => origin(start_line(hunk, mode)) + side(hunk.change, mode).len() <= q.cursor
                <= lines.len(),
            Err(e) => failure_of(e, lines.len(), mode),
        },
{
    match pass_through(p, lines, start_line(hunk, mode) - 1) {
        Ok(q) => {
            lemma_changes_cursor(hunk.change, lines, q, mode);
        },
        Err(e) => {},
    }
}

/// Hunks fail where one of them reaches past the end of the text, and with
/// nothing but what `failure_of` allows.
pub proof fn lemma_hunks_past_end(
    hunks: Seq<DiffHunkView>,
    lines: Seq<Seq<char>>,
    p: Progress,
    mode: Mode,
)
    requires
        p.cursor <= lines.len(),
    ensures
        match hunks_run(p, lines, hunks, mode) {
            Ok(q) => q.cursor <= lines.len() && forall|h: int|
                0 <= h < hunks.len() ==> origin(start_line(#[trigger] hunks[h], mode)) + side(
                    hunks[h].change,
                    mode,
                ).len() <= lines.len(),
            Err(e) => failure_of(e, lines.len(), mode),
        },
    decreases hunks.len(),
{
    if hunks.len() > 0 {
        lemma_hunk_cursor(hunks[0], lines, p, mode);
        match hunk_step(p, lines, hunks[0], mode) {
            Ok(q) => {
                lemma_hunks_past_end(hunks.drop_first(), lines, q, mode);
                if hunks_run(p, lines, hunks, mode) is Ok {
                    assert forall|h: int| 0 <= h < hunks.len() implies origin(
                        start_line(#[trigger] hunks[h], mode),
                    ) + side(hunks[h].change, mode).len() <= lines.len() by {
                        if h > 0 {
                            assert(hunks[h] == hunks.drop_first()[h - 1]);
                        }
                    }
                }
            },
            Err(e) => {},
        }
    }
}

/// The number of lines that a hunk's header records for the text read.
pub open spec fn recorded_len(hunk: DiffHunkView, mode: Mode) -> nat {
    match mode {
        Mode::Apply => hunk.old_len,
        Mode::Revert => hunk.new_len,
    }
}

/// Out of range: a diff with a hunk whose origin, plus the number of lines
/// that its changes stand for in the text read, exceeds the number of lines
/// of the text, fails on that text. Forward the error is the missing line
/// behind the last; backward it is that, or a context line that differs.
pub proof fn lemma_hunk_past_end(diff: DiffView, text: Seq<char>, mode: Mode, h: int)
    requires
        0 <= h < diff.hunk.len(),
        origin(start_line(diff.hunk[h], mode)) + side(diff.hunk[h].change, mode).len() > lines_of(
            text,
        ).len(),
    ensures
        patch_text(diff, text, mode) matches Err(e) && failure_of(e, lines_of(text).len(), mode),
        mode == Mode::Apply ==> patch_text(diff, text, mode) == Err::<Seq<char>, DiffErrorView>(
            no_line(lines_of(text).len()),
        ),
{
    lemma_hunks_past_end(
        diff.hunk,
        lines_of(text),
        Progress { out: Seq::empty(), cursor: 0 },
        mode,
    );
}

/// Out of range, by the header: the same of a hunk whose header records as
/// many lines as its changes stand for, and whose recorded start plus
/// recorded length exceeds the number of lines of the text.
pub proof fn lemma_recorded_range_past_end(diff: DiffView, text: Seq<char>, mode: Mode, h: int)
    requires
        0 <= h < diff.hunk.len(),
        recorded_len(diff.hunk[h], mode) == side(diff.hunk[h].change, mode).len(),
        origin(start_line(diff.hunk[h], mode)) + recorded_len(diff.hunk[h], mode) > lines_of(
            text,
        ).len(),
    ensures
        patch_text(diff, text, mode) matches Err(e) && failure_of(e, lines_of(text).len(), mode),
        mode == Mode::Apply ==> patch_text(diff, text, mode) == Err::<Seq<char>, DiffErrorView>(
            no_line(lines_of(text).len()),
        ),
{
    lemma_hunk_past_end(diff, text, mode, h);
}

} // verus!
