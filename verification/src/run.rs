//! Running a composition over a set of files. The library decides what is
//! read and written and in which order; its caller reads and writes.

use crate::diff::{
    store_failed, DiffComposition, DiffCompositionView, DiffError, DiffErrorView,
};
use crate::patch::{patch_text, Mode};
use vstd::prelude::*;

verus! {

/// What the caller reports to a run.
#[derive(Debug)]
pub enum Event {
    /// Nothing yet: the run begins.
    Start,
    /// The file asked for was read, and this is its text.
    Loaded(String),
    /// The text handed out was written to its file.
    Stored,
    /// Reading or writing failed.
    Failed(std::io::Error),
}

/// What a run asks of its caller.
#[derive(Debug)]
pub enum Action {
    /// Read the file at this path, relative to the root, and report its text.
    Load(String),
    /// Overwrite the file at this path, relative to the root, with this text.
    Store(String, String),
    /// The run is over, with this result.
    Finish(Result<(), DiffError>),
}

/// What specifications see of an `Event`.
pub enum EventView {
    Start,
    Loaded(Seq<char>),
    Stored,
    Failed(std::io::Error),
}

/// What specifications see of an `Action`.
pub enum ActionView {
    Load(Seq<char>),
    Store(Seq<char>, Seq<char>),
    Finish(Result<(), DiffErrorView>),
}

impl View for Event {
    type V = EventView;

    open spec fn view(&self) -> EventView {
        match *self {
            Event::Start => EventView::Start,
            Event::Loaded(text) => EventView::Loaded(text@),
            Event::Stored => EventView::Stored,
            Event::Failed(cause) => EventView::Failed(cause),
        }
    }
}

impl View for Action {
    type V = ActionView;

    open spec fn view(&self) -> ActionView {
        match *self {
            Action::Load(path) => ActionView::Load(path@),
            Action::Store(path, text) => ActionView::Store(path@, text@),
            Action::Finish(Ok(())) => ActionView::Finish(Ok(())),
            Action::Finish(Err(e)) => ActionView::Finish(Err(e@)),
        }
    }
}

/// The request for the file of the diff at position `at`; past the last
/// diff, the end of the run.
pub open spec fn ask(composition: DiffCompositionView, at: nat) -> ActionView {
    if at < composition.diff.len() {
        ActionView::Load(composition.diff[at as int].path)
    } else {
        ActionView::Finish(Ok(()))
    }
}

/// One step of a run: the position of the diff in hand and the action asked
/// for, given the position before and what the caller reports.
///
/// The run takes the diffs in their order. For each it asks for the file's
/// text, transforms it, and asks for the result to be written, before it
/// turns to the next. The first failure, of the file store or of the
/// transformation, ends the run; files written before it stay written.
pub open spec fn run_step(composition: DiffCompositionView, mode: Mode, at: nat, event: EventView) -> (
    nat,
    ActionView,
) {
    match event {
        EventView::Start => (0, ask(composition, 0)),
        EventView::Loaded(text) => if at < composition.diff.len() {
            match patch_text(composition.diff[at as int], text, mode) {
                Ok(patched) => (at, ActionView::Store(composition.diff[at as int].path, patched)),
                Err(e) => (at, ActionView::Finish(Err(e))),
            }
        } else {
            (at, ActionView::Finish(Ok(())))
        },
        EventView::Stored => if at < composition.diff.len() {
            (at + 1, ask(composition, at + 1))
        } else {
            (at, ActionView::Finish(Ok(())))
        },
        EventView::Failed(cause) => (at, ActionView::Finish(Err(store_failed(cause)))),
    }
}

impl DiffComposition {
    fn request(&self, at: usize) -> (action: Action)
        ensures
            action@ == ask(self@, at as nat),
    {
        if at < self.diff.len() {
            Action::Load(self.diff[at].path.clone())
        } else {
            Action::Finish(Ok(()))
        }
    }

    /// Takes a run in the direction `mode` one step further.
    pub fn advance(&self, mode: Mode, at: usize, event: Event) -> (next: (usize, Action))
        ensures
            (next.0 as nat, next.1@) == run_step(self@, mode, at as nat, event@),
    {
        match event {
            Event::Start => (0, self.request(0)),
            Event::Loaded(text) => {
                if at < self.diff.len() {
                    match self.diff[at].patch(text.as_str(), mode) {
                        Ok(patched) => (at, Action::Store(self.diff[at].path.clone(), patched)),
                        Err(e) => (at, Action::Finish(Err(e))),
                    }
                } else {
                    (at, Action::Finish(Ok(())))
                }
            },
            Event::Stored => {
                if at < self.diff.len() {
                    (at + 1, self.request(at + 1))
                } else {
                    (at, Action::Finish(Ok(())))
                }
            },
            Event::Failed(cause) => (at, Action::Finish(Err(DiffError::from(cause)))),
        }
    }

    /// Takes a run that applies the composition one step further.
    pub fn apply(&self, at: usize, event: Event) -> (next: (usize, Action))
        ensures
            (next.0 as nat, next.1@) == run_step(self@, Mode::Apply, at as nat, event@),
    {
        self.advance(Mode::Apply, at, event)
    }

    /// Takes a run that reverts the composition one step further.
    pub fn revert(&self, at: usize, event: Event) -> (next: (usize, Action))
        ensures
            (next.0 as nat, next.1@) == run_step(self@, Mode::Revert, at as nat, event@),
    {
        self.advance(Mode::Revert, at, event)
    }
}

/// What a run makes of a set of files that holds every file asked for and
/// never fails, from the diff at position `at` on: each diff in turn takes
/// the text under its path and leaves the patched text there; the first
/// diff that fails ends the run, and the files patched before it stay patched.
pub open spec fn run_all(
    composition: DiffCompositionView,
    mode: Mode,
    files: Map<Seq<char>, Seq<char>>,
    at: nat,
) -> (Map<Seq<char>, Seq<char>>, Result<(), DiffErrorView>)
    decreases composition.diff.len() - at,
{
    if at >= composition.diff.len() {
        (files, Ok(()))
    } else {
        let diff = composition.diff[at as int];
        match patch_text(diff, files[diff.path], mode) {
            Ok(patched) => run_all(composition, mode, files.insert(diff.path, patched), at + 1),
            Err(e) => (files, Err(e)),
        }
    }
}

/// What comes of following `run_step` over such a set of files for at most
/// `patience` requests: each request to load is answered with the text under
/// the path, each request to store changes the text under the path.
pub open spec fn follow(
    composition: DiffCompositionView,
    mode: Mode,
    files: Map<Seq<char>, Seq<char>>,
    at: nat,
    event: EventView,
    patience: nat,
) -> (Map<Seq<char>, Seq<char>>, Result<(), DiffErrorView>)
    decreases patience,
{
    let (next, action) = run_step(composition, mode, at, event);
    match action {
        ActionView::Finish(result) => (files, result),
        ActionView::Load(path) => if patience == 0 {
            (files, Ok(()))
        } else {
            follow(
                composition,
                mode,
                files,
                next,
                EventView::Loaded(files[path]),
                (patience - 1) as nat,
            )
        },
        ActionView::Store(path, text) => if patience == 0 {
            (files, Ok(()))
        } else {
            follow(
                composition,
                mode,
                files.insert(path, text),
                next,
                EventView::Stored,
                (patience - 1) as nat,
            )
        },
    }
}

/// Following the steps from an event that leads to the diff at position
/// `next` does to the files what the run does from that diff on.
proof fn lemma_follow_from(
    composition: DiffCompositionView,
    mode: Mode,
    files: Map<Seq<char>, Seq<char>>,
    at: nat,
    event: EventView,
    next: nat,
    patience: nat,
)
    requires
        run_step(composition, mode, at, event) == (next, ask(composition, next)),
        patience + 2 * next >= 2 * composition.diff.len(),
    ensures
        follow(composition, mode, files, at, event, patience) == run_all(
            composition,
            mode,
            files,
            next,
        ),
    decreases composition.diff.len() - next,
{
    if next < composition.diff.len() {
        let diff = composition.diff[next as int];
        let loaded = EventView::Loaded(files[diff.path]);
        assert(follow(composition, mode, files, at, event, patience) == follow(
            composition,
            mode,
            files,
            next,
            loaded,
            (patience - 1) as nat,
        ));
        match patch_text(diff, files[diff.path], mode) {
            Ok(patched) => {
                let stored = files.insert(diff.path, patched);
                assert(follow(composition, mode, files, next, loaded, (patience - 1) as nat)
                    == follow(
                    composition,
                    mode,
                    stored,
                    next,
                    EventView::Stored,
                    (patience - 2) as nat,
                ));
                lemma_follow_from(
                    composition,
                    mode,
                    stored,
                    next,
                    EventView::Stored,
                    next + 1,
                    (patience - 2) as nat,
                );
            },
            Err(e) => {},
        }
    }
}

/// The steps make the run: over a set of files that holds every file asked
/// for and never fails, following `run_step` from the start, with patience
/// for a load and a store for each diff, patches the files of the diffs in
/// their order, up to the first diff that fails.
pub proof fn lemma_steps_make_the_run(
    composition: DiffCompositionView,
    mode: Mode,
    files: Map<Seq<char>, Seq<char>>,
    patience: nat,
)
    requires
        patience >= 2 * composition.diff.len(),
    ensures
        follow(composition, mode, files, 0, EventView::Start, patience) == run_all(
            composition,
            mode,
            files,
            0,
        ),
{
    lemma_follow_from(composition, mode, files, 0, EventView::Start, 0, patience);
}

} // verus!
