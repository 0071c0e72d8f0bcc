//! The parser state: the one mutable context of a parse.
//!
//! One state lives through a whole compilation. An import does not make a
//! second one: it saves the fields that say which file is being read, puts
//! the imported file in their place, parses, and puts the saved ones back.

use vstd::prelude::*;
use crate::error::{
    trace_views, CompileError, CompileErrorView, Fault, FaultView, TraceFrame,
    TraceFrameView,
};
use crate::history::{imports_transitively, lemma_imports_extend, ImportHistory, Links};
use crate::memory::{Memory, MemoryView};
use crate::source::{source_index, SourceView};
use crate::text::option_view;
use crate::token::{token_views, Token, TokenView};

verus! {

/// A function as the shell text holds it: its name and the text of its
/// body.
#[derive(Debug)]
pub struct ShellFunction {
    pub name: String,
    pub text: String,
}

/// The views of a list of shell functions, in order.
pub open spec fn shell_views(functions: Seq<ShellFunction>) -> Seq<(Seq<char>, Seq<char>)> {
    functions.map_values(|f: ShellFunction| (f.name@, f.text@))
}

/// Whether the shell text holds a function `name` whose body is not
/// `text`. A second function of the same name would replace the first;
/// with the same body that changes nothing, with another it would
/// change what a call of the first means.
pub open spec fn clashes(shell: Seq<(Seq<char>, Seq<char>)>, name: Seq<char>, text: Seq<char>) -> bool {
    exists|i: int| 0 <= i < shell.len() && (#[trigger] shell[i]).0 == name && shell[i].1 != text
}

/// The state of a parse.
#[derive(Debug)]
pub struct ParserState {
    /// The tokens of the file being parsed.
    pub tokens: Vec<Token>,
    /// The index of the next token to read.
    pub cursor: usize,
    /// The text of the file being parsed.
    pub source_text: Option<String>,
    /// The path of the file being parsed; `None` for inline text.
    pub source_path: Option<String>,
    /// The symbol table.
    pub memory: Memory,
    /// The ledger of imports, shared by all files of the compilation.
    pub import_history: ImportHistory,
    /// The import sites that led to the file being parsed, outermost first.
    pub trace_stack: Vec<TraceFrame>,
    /// Every function declared so far in any file of the compilation, as
    /// the shell text will hold it.
    pub shell_functions: Vec<ShellFunction>,
}

/// The mathematical value of a [`ParserState`].
pub ghost struct StateView {
    pub tokens: Seq<TokenView>,
    pub cursor: int,
    pub source_text: Option<Seq<char>>,
    pub source_path: Option<Seq<char>>,
    pub memory: MemoryView,
    pub links: Links,
    pub trace: Seq<TraceFrameView>,
    pub shell: Seq<(Seq<char>, Seq<char>)>,
}

impl View for ParserState {
    type V = StateView;

    open spec fn view(&self) -> StateView {
        StateView {
            tokens: token_views(self.tokens@),
            cursor: self.cursor as int,
            source_text: option_view(self.source_text),
            source_path: option_view(self.source_path),
            memory: self.memory@,
            links: self.import_history@,
            trace: trace_views(self.trace_stack@),
            shell: shell_views(self.shell_functions@),
        }
    }
}

/// The error that reports `fault` in the file that `state` is parsing.
pub open spec fn error_at(state: StateView, fault: FaultView) -> CompileErrorView {
    CompileErrorView { fault, path: state.source_path, trace: state.trace }
}

/// Whether the file of import site `i` of `trace` imports the file
/// `current`, directly or through other files, by the ledger `links`.
pub open spec fn site_linked(
    trace: Seq<TraceFrameView>,
    current: Option<Seq<char>>,
    links: Links,
    i: int,
) -> bool {
    match trace[i].path {
        Some(file) => match current {
            Some(path) => imports_transitively(links, file, path),
            None => false,
        },
        None => true,
    }
}

/// Whether the ledger accounts for the trace: every file on the way to the
/// file being parsed imports it, directly or through other files.
pub open spec fn chain_linked(trace: Seq<TraceFrameView>, current: Option<Seq<char>>, links: Links) -> bool {
    forall|i: int| 0 <= i < trace.len() ==> #[trigger] site_linked(trace, current, links, i)
}

/// The files of the imports that are open, outermost first: every file on
/// the way but the one the compilation started with, then the file being
/// parsed. Empty while that first file is parsed.
pub open spec fn open_files(trace: Seq<TraceFrameView>, current: Option<Seq<char>>) -> Seq<
    Option<Seq<char>>,
> {
    if trace.len() == 0 {
        Seq::empty()
    } else {
        trace.subrange(1, trace.len() as int).map_values(|f: TraceFrameView| f.path).push(current)
    }
}

/// Whether the open imports pass through each file once and only through
/// files that are among `sources`.
pub open spec fn within(trace: Seq<TraceFrameView>, current: Option<Seq<char>>, sources: Seq<SourceView>) -> bool {
    let files = open_files(trace, current);
    &&& files.no_duplicates()
    &&& forall|i: int|
        0 <= i < files.len() ==> ((#[trigger] files[i]) matches Some(path) && source_index(
            sources,
            path,
        ) is Some)
}

/// A ledger that has only grown still accounts for the trace.
pub proof fn lemma_chain_extends(
    trace: Seq<TraceFrameView>,
    current: Option<Seq<char>>,
    old: Links,
    new: Links,
)
    requires
        chain_linked(trace, current, old),
        old.is_prefix_of(new),
    ensures
        chain_linked(trace, current, new),
{
    assert forall|i: int| 0 <= i < trace.len() implies #[trigger] site_linked(
        trace,
        current,
        new,
        i,
    ) by {
        assert(site_linked(trace, current, old, i));
        if let Some(file) = trace[i].path {
            lemma_imports_extend(old, new, file, current->Some_0);
        }
    }
}

/// The state in which the parse of a compilation unit starts.
pub open spec fn initial_state(tokens: Seq<TokenView>, path: Option<Seq<char>>, code: Option<Seq<char>>) -> StateView {
    StateView {
        tokens,
        cursor: 0,
        source_text: code,
        source_path: path,
        memory: MemoryView { functions: Seq::empty(), exports: Seq::empty() },
        links: Seq::empty(),
        trace: Seq::empty(),
        shell: Seq::empty(),
    }
}

impl ParserState {
    /// The invariant of the state: the cursor is within the tokens or just
    /// behind them, no name is declared twice, and the ledger accounts for
    /// the trace.
    pub open spec fn wf(&self) -> bool {
        self.cursor <= self.tokens@.len() && self.memory.wf() && chain_linked(
            self@.trace,
            self@.source_path,
            self@.links,
        )
    }

    /// The state in which the parse of a compilation unit starts.
    pub fn new(tokens: Vec<Token>, path: Option<String>, code: Option<String>) -> (state: ParserState)
        ensures
            state.wf(),
            state@ == initial_state(token_views(tokens@), option_view(path), option_view(code)),
    {
        let state = ParserState {
            tokens,
            cursor: 0,
            source_text: code,
            source_path: path,
            memory: Memory::new(),
            import_history: ImportHistory::new(),
            trace_stack: Vec::new(),
            shell_functions: Vec::new(),
        };
        assert(state@.trace =~= Seq::<TraceFrameView>::empty());
        assert(state@.shell =~= Seq::<(Seq<char>, Seq<char>)>::empty());
        state
    }

    /// The index of the next token to read.
    pub fn get_index(&self) -> (index: usize)
        ensures
            index == self@.cursor,
    {
        self.cursor
    }

    /// Moves the cursor to `index`.
    pub fn set_index(&mut self, index: usize)
        requires
            index <= old(self).tokens@.len(),
        ensures
            final(self)@ == (StateView { cursor: index as int, ..old(self)@ }),
            old(self).wf() ==> final(self).wf(),
    {
        self.cursor = index;
    }

    /// Whether the shell text holds a function `name` whose body is not
    /// `text`.
    pub fn clashes(&self, name: &String, text: &String) -> (found: bool)
        ensures
            found == clashes(self@.shell, name@, text@),
    {
        let mut i: usize = 0;
        while i < self.shell_functions.len()
            invariant
                i <= self.shell_functions.len(),
                forall|j: int|
                    0 <= j < i ==> !((#[trigger] self@.shell[j]).0 == name@ && self@.shell[j].1
                        != text@),
            decreases self.shell_functions.len() - i,
        {
            assert(self@.shell[i as int] == (
                self.shell_functions@[i as int].name@,
                self.shell_functions@[i as int].text@,
            ));
            if self.shell_functions[i].name == *name && self.shell_functions[i].text != *text {
                return true;
            }
            i = i + 1;
        }
        false
    }

    /// Records that the shell text holds a function `name` with the body
    /// `text`.
    pub fn add_shell_function(&mut self, name: String, text: String)
        ensures
            final(self)@ == (StateView {
                shell: old(self)@.shell.push((name@, text@)),
                ..old(self)@
            }),
            old(self).wf() ==> final(self).wf(),
    {
        let ghost before = self@.shell;
        self.shell_functions.push(ShellFunction { name, text });
        assert(self@.shell =~= before.push((name@, text@)));
    }

    /// The error that reports `fault` in the file being parsed.
    pub fn error(&self, fault: Fault) -> (error: CompileError)
        ensures
            error@ == error_at(self@, fault@),
    {
        CompileError::new(fault, &self.source_path, &self.trace_stack)
    }

    /// Enters an import: records its site on the trace.
    pub fn push_trace(&mut self, frame: TraceFrame)
        ensures
            final(self)@ == (StateView { trace: old(self)@.trace.push(frame@), ..old(self)@ }),
    {
        let ghost before = self@.trace;
        self.trace_stack.push(frame);
        assert(self@.trace =~= before.push(frame@));
    }

    /// Leaves an import: drops its site from the trace.
    pub fn pop_trace(&mut self)
        requires
            old(self)@.trace.len() > 0,
        ensures
            final(self)@ == (StateView { trace: old(self)@.trace.drop_last(), ..old(self)@ }),
    {
        let ghost before = self@.trace;
        self.trace_stack.pop();
        assert(self@.trace =~= before.drop_last());
    }
}

} // verus!
