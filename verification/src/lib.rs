//! A unified-diff engine: it reads git's patch format into a structured
//! model and transforms text forward or backward with it, all in memory.
//!
//! - `text`: texts as lines; `scan`: searching, cutting and numbers.
//! - `diff`: the model of a diff text, and the errors of patching.
//! - `parser` and `assemble`: from a diff text to the model.
//! - `patch`: from a diff and a text to the patched text.
//! - `run`: the order of reads and writes that patches a set of files.
//! - `text_laws`, `parse_laws`, `patch_laws`: what is proved of the above.
//! - `grammar`: the lines that stand for a diff, and that the parse reads them
//!   as that diff.

use vstd::prelude::*;

pub mod assemble;
pub mod diff;
pub mod grammar;
pub mod parse_laws;
pub mod parser;
pub mod patch;
pub mod patch_laws;
pub mod run;
pub mod scan;
pub mod text;
pub mod text_laws;

verus! {

/// The entry points of the library under one name.
pub struct DiffManager {}

impl DiffManager {
    /// Reads a diff text in the given format.
    pub fn parse(format: &diff::DiffFormat, diff: &str) -> (r: Result<
        diff::DiffComposition,
        parser::ParseError,
    >)
        ensures
            match r {
                Ok(composition) => parser::parse_text(diff@) == Ok::<
                    diff::DiffCompositionView,
                    parser::ParseErrorView,
                >(composition@),
                Err(e) => parser::parse_text(diff@) == Err::<
                    diff::DiffCompositionView,
                    parser::ParseErrorView,
                >(e@),
            },
    {
        match format {
            diff::DiffFormat::GitUdiff => parser::Parser::parse_git_udiff(diff),
        }
    }

    /// Takes a run that applies `comp` one step further.
    pub fn apply(comp: &diff::DiffComposition, at: usize, event: run::Event) -> (next: (
        usize,
        run::Action,
    ))
        ensures
            (next.0 as nat, next.1@) == run::run_step(comp@, patch::Mode::Apply, at as nat, event@),
    {
        comp.apply(at, event)
    }

    /// Takes a run that reverts `comp` one step further.
    pub fn revert(comp: &diff::DiffComposition, at: usize, event: run::Event) -> (next: (
        usize,
        run::Action,
    ))
        ensures
            (next.0 as nat, next.1@) == run::run_step(comp@, patch::Mode::Revert, at as nat, event@),
    {
        comp.revert(at, event)
    }
}

} // verus!
