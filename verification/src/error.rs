//! Structured compilation errors.
//!
//! Every failure of a compilation is one of six kinds. It carries a
//! message, an optional comment, the position it is reported against, the
//! file that position lies in, and the chain of import sites that led to
//! that file.

use vstd::prelude::*;
use crate::text::{clone_option, option_view};
use crate::token::{LexFailure, LexFailureView, LexFault};

verus! {

/// The kinds of failure.
#[derive(Debug, Clone, Copy, PartialEq, Eq, Structural)]
pub enum ErrorKind {
    /// The text could not be split into tokens.
    Lex,
    /// The tokens do not form a program.
    Parse,
    /// The path of an import is no valid text. Paths that are text are
    /// always resolved; the kind is for callers whose paths are not.
    PathResolution,
    /// An import would close a circle of imports.
    CircularImport,
    /// The file of an import could not be read.
    FileRead,
    /// A function is declared under a name that is taken.
    Redefinition,
}

/// A place in a source text: row and column of a token's first character.
#[derive(Debug, Clone, Copy, PartialEq, Eq, Structural)]
pub struct Position {
    pub row: usize,
    pub col: usize,
}

/// What went wrong and where in the current file, without the file's name.
#[derive(Debug)]
pub struct Fault {
    pub kind: ErrorKind,
    pub message: String,
    pub comment: Option<String>,
    /// `None` stands for the end of the text.
    pub position: Option<Position>,
}

/// The mathematical value of a [`Fault`].
pub ghost struct FaultView {
    pub kind: ErrorKind,
    pub message: Seq<char>,
    pub comment: Option<Seq<char>>,
    pub position: Option<Position>,
}

impl View for Fault {
    type V = FaultView;

    open spec fn view(&self) -> FaultView {
        FaultView {
            kind: self.kind,
            message: self.message@,
            comment: option_view(self.comment),
            position: self.position,
        }
    }
}

/// The site of an import directive: the importing file and the place of the
/// directive in it.
#[derive(Debug)]
pub struct TraceFrame {
    pub path: Option<String>,
    pub position: Position,
}

/// The mathematical value of a [`TraceFrame`].
pub ghost struct TraceFrameView {
    pub path: Option<Seq<char>>,
    pub position: Position,
}

impl View for TraceFrame {
    type V = TraceFrameView;

    open spec fn view(&self) -> TraceFrameView {
        TraceFrameView { path: option_view(self.path), position: self.position }
    }
}

/// The views of a trace, outermost import first.
pub open spec fn trace_views(trace: Seq<TraceFrame>) -> Seq<TraceFrameView> {
    trace.map_values(|f: TraceFrame| f@)
}

/// A failure of a compilation.
#[derive(Debug)]
pub struct CompileError {
    pub fault: Fault,
    /// The file the fault lies in; `None` for inline text.
    pub path: Option<String>,
    /// The import sites that led to that file, outermost first.
    pub trace: Vec<TraceFrame>,
}

/// The mathematical value of a [`CompileError`].
pub ghost struct CompileErrorView {
    pub fault: FaultView,
    pub path: Option<Seq<char>>,
    pub trace: Seq<TraceFrameView>,
}

impl View for CompileError {
    type V = CompileErrorView;

    open spec fn view(&self) -> CompileErrorView {
        CompileErrorView {
            fault: self.fault@,
            path: option_view(self.path),
            trace: trace_views(self.trace@),
        }
    }
}

/// Why a parse stopped short of a result.
#[derive(Debug)]
pub enum Halt {
    /// The compilation has failed.
    Failed(CompileError),
    /// The file at this path is imported but its contents are not at hand.
    Needs(String),
}

/// The mathematical value of a [`Halt`].
pub ghost enum HaltView {
    Failed(CompileErrorView),
    Needs(Seq<char>),
}

impl View for Halt {
    type V = HaltView;

    open spec fn view(&self) -> HaltView {
        match *self {
            Halt::Failed(error) => HaltView::Failed(error@),
            Halt::Needs(path) => HaltView::Needs(path@),
        }
    }
}

/// The fault of an import that would close a circle.
pub open spec fn circular_fault(position: Option<Position>) -> FaultView {
    FaultView {
        kind: ErrorKind::CircularImport,
        message: "Circular import detected"@,
        comment: Some("Due to shell limitations, circular imports are not allowed"@),
        position,
    }
}

/// The fault of an import whose path is no valid text; `path` is what
/// can be shown of it.
pub open spec fn unresolved_fault(path: Seq<char>, position: Option<Position>) -> FaultView {
    FaultView {
        kind: ErrorKind::PathResolution,
        message: "Could not resolve path '"@ + path + "'"@,
        comment: Some("Path is not valid UTF-8"@),
        position,
    }
}

/// The fault of an import whose file could not be read: it names the path
/// as written in the directive and gives the reason as its comment.
pub open spec fn unreadable_fault(literal: Seq<char>, reason: Seq<char>, position: Option<Position>) -> FaultView {
    FaultView {
        kind: ErrorKind::FileRead,
        message: "Failed to read file '"@ + literal + "'"@,
        comment: Some(reason),
        position,
    }
}

/// The fault of declaring a function under a name that is taken.
pub open spec fn redefinition_fault(name: Seq<char>, position: Option<Position>) -> FaultView {
    FaultView {
        kind: ErrorKind::Redefinition,
        message: "Function '"@ + name + "' is already defined"@,
        comment: None,
        position,
    }
}

/// The fault of calling a function that is not in scope.
pub open spec fn unknown_function_fault(name: Seq<char>, position: Option<Position>) -> FaultView {
    FaultView {
        kind: ErrorKind::Parse,
        message: "Function '"@ + name + "' does not exist"@,
        comment: None,
        position,
    }
}

/// The fault of a token that the grammar does not allow where it stands.
pub open spec fn syntax_fault(expected: Seq<char>, position: Option<Position>) -> FaultView {
    FaultView {
        kind: ErrorKind::Parse,
        message: "Expected "@ + expected,
        comment: None,
        position,
    }
}

/// The fault of a text that could not be split into tokens.
pub open spec fn lex_fault(failure: LexFailureView) -> FaultView {
    FaultView {
        kind: ErrorKind::Lex,
        message: match failure.fault {
            LexFault::Unclosed => failure.region + " unclosed"@,
            LexFault::Multiline => failure.region + " cannot be multiline"@,
        },
        comment: None,
        position: Some(Position { row: failure.row, col: failure.col }),
    }
}

impl Fault {
    /// See [`circular_fault`].
    pub fn circular(position: Option<Position>) -> (fault: Fault)
        ensures
            fault@ == circular_fault(position),
    {
        Fault {
            kind: ErrorKind::CircularImport,
            message: String::from_str("Circular import detected"),
            comment: Some(
                String::from_str("Due to shell limitations, circular imports are not allowed"),
            ),
            position,
        }
    }

    /// See [`unresolved_fault`].
    pub fn unresolved(path: &str, position: Option<Position>) -> (fault: Fault)
        ensures
            fault@ == unresolved_fault(path@, position),
    {
        Fault {
            kind: ErrorKind::PathResolution,
            message: String::from_str("Could not resolve path '").concat(path).concat("'"),
            comment: Some(String::from_str("Path is not valid UTF-8")),
            position,
        }
    }

    /// See [`unreadable_fault`].
    pub fn unreadable(literal: &str, reason: &str, position: Option<Position>) -> (fault: Fault)
        ensures
            fault@ == unreadable_fault(literal@, reason@, position),
    {
        Fault {
            kind: ErrorKind::FileRead,
            message: String::from_str("Failed to read file '").concat(literal).concat("'"),
            comment: Some(String::from_str(reason)),
            position,
        }
    }

    /// See [`redefinition_fault`].
    pub fn redefinition(name: &str, position: Option<Position>) -> (fault: Fault)
        ensures
            fault@ == redefinition_fault(name@, position),
    {
        Fault {
            kind: ErrorKind::Redefinition,
            message: String::from_str("Function '").concat(name).concat("' is already defined"),
            comment: None,
            position,
        }
    }

    /// See [`unknown_function_fault`].
    pub fn unknown_function(name: &str, position: Option<Position>) -> (fault: Fault)
        ensures
            fault@ == unknown_function_fault(name@, position),
    {
        Fault {
            kind: ErrorKind::Parse,
            message: String::from_str("Function '").concat(name).concat("' does not exist"),
            comment: None,
            position,
        }
    }

    /// See [`syntax_fault`].
    pub fn syntax(expected: &str, position: Option<Position>) -> (fault: Fault)
        ensures
            fault@ == syntax_fault(expected@, position),
    {
        Fault {
            kind: ErrorKind::Parse,
            message: String::from_str("Expected ").concat(expected),
            comment: None,
            position,
        }
    }

    /// See [`lex_fault`].
    pub fn lex(failure: &LexFailure) -> (fault: Fault)
        ensures
            fault@ == lex_fault(failure@),
    {
        let message = match failure.fault {
            LexFault::Unclosed => failure.region.clone().concat(" unclosed"),
            LexFault::Multiline => failure.region.clone().concat(" cannot be multiline"),
        };
        Fault {
            kind: ErrorKind::Lex,
            message,
            comment: None,
            position: Some(Position { row: failure.row, col: failure.col }),
        }
    }
}

/// A copy of a trace.
pub fn clone_trace(trace: &Vec<TraceFrame>) -> (copy: Vec<TraceFrame>)
    ensures
        trace_views(copy@) == trace_views(trace@),
{
    let mut copy: Vec<TraceFrame> = Vec::new();
    let mut i: usize = 0;
    while i < trace.len()
        invariant
            i <= trace.len(),
            copy@.len() == i,
            forall|j: int| 0 <= j < i ==> copy@[j]@ == trace@[j]@,
        decreases trace.len() - i,
    {
        copy.push(TraceFrame { path: clone_option(&trace[i].path), position: trace[i].position });
        i = i + 1;
    }
    assert(trace_views(copy@) =~= trace_views(trace@));
    copy
}

impl CompileError {
    /// The error that reports `fault` in the file `path`, reached through
    /// the import sites of `trace`.
    pub fn new(fault: Fault, path: &Option<String>, trace: &Vec<TraceFrame>) -> (error: CompileError)
        ensures
            error@ == (CompileErrorView {
                fault: fault@,
                path: option_view(*path),
                trace: trace_views(trace@),
            }),
    {
        CompileError { fault, path: clone_option(path), trace: clone_trace(trace) }
    }

    /// The kind of this error.
    pub fn kind(&self) -> (kind: ErrorKind)
        ensures
            kind == self@.fault.kind,
    {
        self.fault.kind
    }
}

} // verus!
