//! The pipeline: from source text to shell script text.
//!
//! A compilation tokenizes the text, parses the tokens on a fresh parser
//! state, and translates the tree on a fresh translate state. It touches
//! nothing but the states it makes: the files that imports name are given
//! to it as values, and it names the first one that is missing.

use vstd::prelude::*;
use crate::error::{
    lex_fault, trace_views, CompileError, CompileErrorView, Fault, Halt, HaltView, TraceFrame,
    TraceFrameView,
};
use crate::import::{parsed_unit, UnitOutcome};
use crate::source::{source_views, SourceFile, SourceView};
use crate::state::{initial_state, ParserState};
use crate::syntax::{Block, BlockView};
use crate::text::option_view;
use crate::token::{tokenize, tokenized};
use crate::translate::{translated_block, TranslateState};

verus! {

/// How a compilation ended.
#[derive(Debug)]
pub enum Outcome {
    /// The shell script text.
    Done(String),
    /// The error that ended the compilation.
    Failed(CompileError),
    /// An import names the file at this path and its contents are not
    /// among the sources: read it, add it, and compile again.
    Needs(String),
}

/// The mathematical value of an [`Outcome`].
pub ghost enum OutcomeView {
    Done(Seq<char>),
    Failed(CompileErrorView),
    Needs(Seq<char>),
}

impl View for Outcome {
    type V = OutcomeView;

    open spec fn view(&self) -> OutcomeView {
        match *self {
            Outcome::Done(text) => OutcomeView::Done(text@),
            Outcome::Failed(error) => OutcomeView::Failed(error@),
            Outcome::Needs(path) => OutcomeView::Needs(path@),
        }
    }
}

/// What compiling `code`, found at `path` (`None` for inline text), gives
/// when `sources` are the files at hand.
pub open spec fn compiled(code: Seq<char>, path: Option<Seq<char>>, sources: Seq<SourceView>) -> OutcomeView {
    match tokenized(code) {
        Err(failure) => OutcomeView::Failed(
            CompileErrorView { fault: lex_fault(failure), path, trace: Seq::empty() },
        ),
        Ok(tokens) => match parsed_unit(
            initial_state(tokens, path, Some(code)),
            sources,
            Seq::empty(),
        ) {
            UnitOutcome::Halted(_, HaltView::Failed(error)) => OutcomeView::Failed(error),
            UnitOutcome::Halted(_, HaltView::Needs(file)) => OutcomeView::Needs(file),
            UnitOutcome::Parsed(_, statements) => OutcomeView::Done(
                translated_block(BlockView { statements, scopeless: false }, None),
            ),
        },
    }
}

/// Compiles `code`, found at `path` (`None` for inline text), to shell
/// script text. `sources` holds what was read of the files that imports
/// name.
pub fn compile(code: &str, path: Option<String>, sources: &Vec<SourceFile>) -> (outcome: Outcome)
    ensures
        outcome@ == compiled(code@, option_view(path), source_views(sources@)),
{
    match tokenize(code) {
        Err(failure) => {
            let trace: Vec<TraceFrame> = Vec::new();
            assert(trace_views(trace@) =~= Seq::<TraceFrameView>::empty());
            Outcome::Failed(CompileError::new(Fault::lex(&failure), &path, &trace))
        },
        Ok(tokens) => {
            let mut meta = ParserState::new(tokens, path, Some(String::from_str(code)));
            match Block::parse(&mut meta, sources) {
                Err(Halt::Failed(error)) => Outcome::Failed(error),
                Err(Halt::Needs(file)) => Outcome::Needs(file),
                Ok(block) => {
                    let mut state = TranslateState::new();
                    Outcome::Done(block.translate(&mut state))
                },
            }
        },
    }
}

} // verus!
