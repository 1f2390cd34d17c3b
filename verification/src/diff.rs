//! The diff model: a composition of per-file diffs, each a list of hunks,
//! each a list of line changes; and the errors of patching.

use vstd::prelude::*;
use vstd::std_specs::convert::FromSpecImpl;
use vstd::string::StringExecFns;

verus! {

pub const DIFF_SIGN_LINE_ADDED: &'static str = "+";

pub const DIFF_SIGN_LINE_DELETED: &'static str = "-";

pub const DIFF_SIGN_LINE_DEFAULT: &'static str = " ";

pub const DIFF_SIGN_HEADER_ORIGIN: &'static str = "---";

pub const DIFF_SIGN_HEADER_NEW: &'static str = "+++";

pub const DIFF_SIGN_HUNK: &'static str = "@@";

/// The textual format a composition was read from.
#[derive(Debug, Clone, Copy, PartialEq, Eq, Structural)]
pub enum DiffFormat {
    GitUdiff,
}

/// What a body line of a hunk says about its line of text.
#[derive(Debug, Clone, Copy, PartialEq, Eq, Structural)]
pub enum Change {
    /// Context: the line is in both texts.
    Default,
    /// The line is in the new text only.
    Added,
    /// The line is in the original text only.
    Deleted,
}

/// The kind of a line of diff text.
#[derive(Debug, Clone, Copy, PartialEq, Eq, Structural)]
pub enum Line {
    Command,
    Index,
    OrignPath,
    NewPath,
    Hunk,
    LineChange(Change),
    Unknown,
}

/// One body line of a hunk: its kind and its text without the sign.
#[derive(Debug, Clone, PartialEq, Eq)]
pub struct LineChange {
    pub kind: Change,
    pub content: String,
}

/// One contiguous edit region.
#[derive(Debug, Clone, PartialEq, Eq)]
pub struct DiffHunk {
    /// First line of the region in the original text, counted from 1.
    pub old_line: usize,
    pub old_len: usize,
    /// First line of the region in the new text, counted from 1.
    pub new_line: usize,
    pub new_len: usize,
    pub change: Vec<LineChange>,
}

/// One file's patch.
#[derive(Debug, Clone, PartialEq, Eq)]
pub struct Diff {
    pub command: Option<String>,
    pub index: Option<String>,
    /// The file's path, relative to the root that the diff was made in.
    pub path: String,
    pub hunk: Vec<DiffHunk>,
}

/// All the diffs read from one diff text, in the order of their appearance.
#[derive(Debug, Clone, PartialEq, Eq)]
pub struct DiffComposition {
    pub format: DiffFormat,
    pub diff: Vec<Diff>,
}

/// What specifications see of a `LineChange`.
pub struct LineChangeView {
    pub kind: Change,
    pub content: Seq<char>,
}

/// What specifications see of a `DiffHunk`.
pub struct DiffHunkView {
    pub old_line: nat,
    pub old_len: nat,
    pub new_line: nat,
    pub new_len: nat,
    pub change: Seq<LineChangeView>,
}

/// What specifications see of a `Diff`.
pub struct DiffView {
    pub command: Option<Seq<char>>,
    pub index: Option<Seq<char>>,
    pub path: Seq<char>,
    pub hunk: Seq<DiffHunkView>,
}

/// What specifications see of a `DiffComposition`.
pub struct DiffCompositionView {
    pub format: DiffFormat,
    pub diff: Seq<DiffView>,
}

/// The view of an optional string.
pub open spec fn option_text(s: Option<String>) -> Option<Seq<char>> {
    match s {
        Some(s) => Some(s@),
        None => None,
    }
}

/// The views of the changes of a hunk, in order.
pub open spec fn changes_view(changes: Seq<LineChange>) -> Seq<LineChangeView> {
    Seq::new(changes.len(), |i: int| changes[i]@)
}

/// The views of the hunks of a diff, in order.
pub open spec fn hunks_view(hunks: Seq<DiffHunk>) -> Seq<DiffHunkView> {
    Seq::new(hunks.len(), |i: int| hunks[i]@)
}

/// The views of the diffs of a composition, in order.
pub open spec fn diffs_view(diffs: Seq<Diff>) -> Seq<DiffView> {
    Seq::new(diffs.len(), |i: int| diffs[i]@)
}

impl View for LineChange {
    type V = LineChangeView;

    open spec fn view(&self) -> LineChangeView {
        LineChangeView { kind: self.kind, content: self.content@ }
    }
}

impl View for DiffHunk {
    type V = DiffHunkView;

    open spec fn view(&self) -> DiffHunkView {
        DiffHunkView {
            old_line: self.old_line as nat,
            old_len: self.old_len as nat,
            new_line: self.new_line as nat,
            new_len: self.new_len as nat,
            change: changes_view(self.change@),
        }
    }
}

impl View for Diff {
    type V = DiffView;

    open spec fn view(&self) -> DiffView {
        DiffView {
            command: option_text(self.command),
            index: option_text(self.index),
            path: self.path@,
            hunk: hunks_view(self.hunk@),
        }
    }
}

impl View for DiffComposition {
    type V = DiffCompositionView;

    open spec fn view(&self) -> DiffCompositionView {
        DiffCompositionView {
            format: self.format,
            diff: diffs_view(self.diff@),
        }
    }
}

/// Taken on trust of std's `std::io::Error`: that it is a type. Nothing is
/// claimed of what a value of it holds; the library only carries such a
/// value from the caller's file store into a `DiffError`.
#[verifier::external_type_specification]
#[verifier::external_body]
pub struct ExIoError(std::io::Error);

/// Why a text could not be patched.
#[derive(Debug)]
pub enum DiffErrorKind {
    /// The file store failed.
    IOError(std::io::Error),
    /// A hunk reached for the line at this position, counted from 0, and the
    /// text has no such line.
    InvalidIndex(usize),
    /// A context line of a hunk, first, is not the line found in the text, second.
    UnmatchedContent(String, String),
}

/// A failure of patching, with a reason for people to read.
#[derive(Debug)]
pub struct DiffError {
    pub kind: DiffErrorKind,
    pub reason: String,
}

/// What specifications see of a `DiffErrorKind`.
pub enum DiffErrorKindView {
    IOError(std::io::Error),
    InvalidIndex(nat),
    UnmatchedContent(Seq<char>, Seq<char>),
}

/// What specifications see of a `DiffError`.
pub struct DiffErrorView {
    pub kind: DiffErrorKindView,
    pub reason: Seq<char>,
}

impl View for DiffErrorKind {
    type V = DiffErrorKindView;

    open spec fn view(&self) -> DiffErrorKindView {
        match *self {
            DiffErrorKind::IOError(e) => DiffErrorKindView::IOError(e),
            DiffErrorKind::InvalidIndex(i) => DiffErrorKindView::InvalidIndex(i as nat),
            DiffErrorKind::UnmatchedContent(expected, found) => DiffErrorKindView::UnmatchedContent(
                expected@,
                found@,
            ),
        }
    }
}

impl View for DiffError {
    type V = DiffErrorView;

    open spec fn view(&self) -> DiffErrorView {
        DiffErrorView { kind: self.kind@, reason: self.reason@ }
    }
}

/// The error for a failure of the file store.
pub open spec fn store_failed(cause: std::io::Error) -> DiffErrorView {
    DiffErrorView { kind: DiffErrorKindView::IOError(cause), reason: "cannot read or write"@ }
}

/// A failure of the file store, as an error of patching.
impl From<std::io::Error> for DiffError {
    fn from(e: std::io::Error) -> (error: DiffError)
        ensures
            error@ == store_failed(e),
    {
        DiffError { kind: DiffErrorKind::IOError(e), reason: String::from_str("cannot read or write") }
    }
}

/// What `from` returns is stated by its view, in the `ensures` of `from`: a
/// specification knows a `String` by its characters only, so no `from_spec`
/// could name the error itself.
impl FromSpecImpl<std::io::Error> for DiffError {
    open spec fn obeys_from_spec() -> bool {
        false
    }

    open spec fn from_spec(e: std::io::Error) -> DiffError {
        arbitrary()
    }
}

} // verus!
