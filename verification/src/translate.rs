//! Translation: from the syntax tree to shell script text.
//!
//! Every statement becomes lines of shell. A block that is a scope of its
//! own is written one step deeper than what surrounds it; a scopeless
//! block is written where it stands. Nothing is read or resolved here:
//! the tree holds the content of every imported file.

use vstd::prelude::*;
use crate::syntax::{statement_views, Block, BlockView, Import, Statement, StatementView};
use crate::text::{clone_option, option_view};

verus! {

/// The state of a translation: the margin of the block being written.
/// `None` is the state outside every block.
#[derive(Debug)]
pub struct TranslateState {
    pub indent: Option<String>,
}

impl View for TranslateState {
    type V = Option<Seq<char>>;

    open spec fn view(&self) -> Option<Seq<char>> {
        option_view(self.indent)
    }
}

/// The margin one step deeper than `indent`.
pub open spec fn deeper(indent: Option<Seq<char>>) -> Option<Seq<char>> {
    match indent {
        Some(margin) => Some(margin + "    "@),
        None => Some(Seq::empty()),
    }
}

/// The text that starts each line at `indent`.
pub open spec fn margin(indent: Option<Seq<char>>) -> Seq<char> {
    match indent {
        Some(margin) => margin,
        None => Seq::empty(),
    }
}

/// The shell text of a statement written at `indent`.
pub open spec fn translated_statement(statement: StatementView, indent: Option<Seq<char>>) -> Seq<char>
    decreases statement,
{
    match statement {
        StatementView::Command { text } => margin(indent) + text + "\n"@,
        StatementView::Call { name } => margin(indent) + name + "\n"@,
        StatementView::Function { name, body } => margin(indent) + name + "() {\n"@
            + translated_block(body, indent) + margin(indent) + "}\n"@,
        StatementView::Import { path, block } => translated_block(block, indent),
    }
}

/// The shell text of statements written one after the other at `indent`.
pub open spec fn translated_statements(statements: Seq<StatementView>, indent: Option<Seq<char>>) -> Seq<char>
    decreases statements,
{
    if statements.len() == 0 {
        Seq::empty()
    } else {
        translated_statements(statements.drop_last(), indent) + translated_statement(
            statements.last(),
            indent,
        )
    }
}

/// The shell text of a block that stands at `indent`. A scope without a
/// statement is written as the command that does nothing.
pub open spec fn translated_block(block: BlockView, indent: Option<Seq<char>>) -> Seq<char>
    decreases block,
{
    if block.scopeless {
        translated_statements(block.statements, indent)
    } else if block.statements.len() == 0 {
        margin(deeper(indent)) + ":\n"@
    } else {
        translated_statements(block.statements, deeper(indent))
    }
}

impl TranslateState {
    /// The state outside every block.
    pub fn new() -> (state: TranslateState)
        ensures
            state@ == None::<Seq<char>>,
    {
        TranslateState { indent: None }
    }

    /// The text that starts each line.
    pub fn margin(&self) -> (text: String)
        ensures
            text@ == margin(self@),
    {
        match &self.indent {
            Some(text) => text.clone(),
            None => String::new(),
        }
    }

    /// Goes one step deeper and gives back the margin to return to.
    pub fn enter(&mut self) -> (saved: Option<String>)
        ensures
            option_view(saved) == old(self)@,
            final(self)@ == deeper(old(self)@),
    {
        let next = match &self.indent {
            Some(text) => text.clone().concat("    "),
            None => String::new(),
        };
        let mut saved = Some(next);
        std::mem::swap(&mut self.indent, &mut saved);
        saved
    }

    /// Returns to a margin that `enter` gave back.
    pub fn leave(&mut self, saved: Option<String>)
        ensures
            final(self)@ == option_view(saved),
    {
        self.indent = saved;
    }
}

impl Statement {
    /// The shell text of this statement.
    pub fn translate(&self, state: &mut TranslateState) -> (text: String)
        ensures
            text@ == translated_statement(self@, old(state)@),
            final(state)@ == old(state)@,
        decreases self,
    {
        match self {
            Statement::Command { text } => state.margin().concat(text.as_str()).concat("\n"),
            Statement::Call { name } => state.margin().concat(name.as_str()).concat("\n"),
            Statement::Function { name, body } => {
                let head = state.margin().concat(name.as_str()).concat("() {\n");
                let inner = body.translate(state);
                head.concat(inner.as_str()).concat(state.margin().as_str()).concat("}\n")
            },
            Statement::Import(import) => import.translate(state),
        }
    }
}

impl Import {
    /// The shell text of this import: that of the imported statements.
    pub fn translate(&self, state: &mut TranslateState) -> (text: String)
        ensures
            text@ == translated_statement(self@, old(state)@),
            final(state)@ == old(state)@,
        decreases self,
    {
        self.block.translate(state)
    }
}

impl Block {
    /// The shell text of this block.
    pub fn translate(&self, state: &mut TranslateState) -> (text: String)
        ensures
            text@ == translated_block(self@, old(state)@),
            final(state)@ == old(state)@,
        decreases self,
    {
        let ghost outside = state@;
        let ghost views = statement_views(self.statements@);
        assert(self@.statements =~= views);
        let saved = if self.scopeless {
            clone_option(&state.indent)
        } else {
            state.enter()
        };
        let ghost inside = state@;
        let mut out = String::new();
        if !self.scopeless && self.statements.len() == 0 {
            out = state.margin().concat(":\n");
        } else {
            let mut i: usize = 0;
            assert(views.take(0) =~= Seq::<StatementView>::empty());
            while i < self.statements.len()
                invariant
                    i <= self.statements@.len(),
                    views == statement_views(self.statements@),
                    state@ == inside,
                    out@ == translated_statements(views.take(i as int), inside),
                decreases self.statements@.len() - i,
            {
                let line = self.statements[i].translate(state);
                proof {
                    assert(views.take(i + 1).drop_last() =~= views.take(i as int));
                    assert(views.take(i + 1).last() == self.statements@[i as int]@);
                }
                out.append(line.as_str());
                i = i + 1;
            }
            assert(views.take(i as int) =~= views);
        }
        state.leave(saved);
        out
    }
}

} // verus!
