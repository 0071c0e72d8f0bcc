//! The syntax tree: what a parse commits.

use vstd::prelude::*;

verus! {

/// A sequence of statements. A scopeless block stands where it is written
/// as if its statements were written there themselves; any other block is
/// a scope of its own.
#[derive(Debug)]
pub struct Block {
    pub statements: Vec<Statement>,
    pub scopeless: bool,
}

/// An import directive with the parsed content of the file it names.
#[derive(Debug)]
pub struct Import {
    /// The path as the directive gives it.
    pub path: String,
    /// The statements of the imported file.
    pub block: Block,
}

/// One statement.
#[derive(Debug)]
pub enum Statement {
    /// `import * from "path"`
    Import(Import),
    /// `fun name() { .. }`, with or without `pub` before it
    Function { name: String, body: Block },
    /// `name()`
    Call { name: String },
    /// `$text$`: a line of shell, taken as it is
    Command { text: String },
}

/// The mathematical value of a [`Block`].
pub ghost struct BlockView {
    pub statements: Seq<StatementView>,
    pub scopeless: bool,
}

/// The mathematical value of a [`Statement`].
pub ghost enum StatementView {
    Import { path: Seq<char>, block: BlockView },
    Function { name: Seq<char>, body: BlockView },
    Call { name: Seq<char> },
    Command { text: Seq<char> },
}

impl View for Block {
    type V = BlockView;

    open spec fn view(&self) -> BlockView
        decreases self,
    {
        BlockView {
            statements: Seq::new(
                self.statements@.len(),
                |i: int|
                    if 0 <= i < self.statements@.len() {
                        self.statements@[i].view()
                    } else {
                        arbitrary()
                    },
            ),
            scopeless: self.scopeless,
        }
    }
}

impl View for Import {
    type V = StatementView;

    open spec fn view(&self) -> StatementView
        decreases self,
    {
        StatementView::Import { path: self.path@, block: self.block.view() }
    }
}

impl View for Statement {
    type V = StatementView;

    open spec fn view(&self) -> StatementView
        decreases self,
    {
        match *self {
            Statement::Import(import) => import.view(),
            Statement::Function { name, body } => StatementView::Function {
                name: name@,
                body: body.view(),
            },
            Statement::Call { name } => StatementView::Call { name: name@ },
            Statement::Command { text } => StatementView::Command { text: text@ },
        }
    }
}

/// The views of a list of statements, in order.
pub open spec fn statement_views(statements: Seq<Statement>) -> Seq<StatementView> {
    Seq::new(statements.len(), |i: int| statements[i]@)
}

impl Block {
    /// A block of the given statements.
    pub fn new(statements: Vec<Statement>, scopeless: bool) -> (block: Block)
        ensures
            block@ == (BlockView { statements: statement_views(statements@), scopeless }),
    {
        let block = Block { statements, scopeless };
        assert(block@.statements =~= statement_views(statements@));
        block
    }

    /// Makes this block scopeless.
    pub fn set_scopeless(&mut self)
        ensures
            final(self)@ == (BlockView { statements: old(self)@.statements, scopeless: true }),
    {
        let ghost before = self@;
        self.scopeless = true;
        assert(self@.statements =~= before.statements);
    }
}

} // verus!
