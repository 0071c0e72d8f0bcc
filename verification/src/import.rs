//! Imports: how the parse of one file enters another and comes back.
//!
//! An import directive is handled in four steps, in this order: the
//! directive is matched against the grammar; the path it gives is resolved
//! against the directory of the importing file; the pair of importing and
//! imported file is entered in the ledger, unless it would close a circle;
//! the imported file is tokenized and parsed on the same parser state, and
//! what it exports is declared, as private, in the importing file.
//!
//! An imported file is parsed in isolation. While it is parsed the symbol
//! table is empty, so it cannot call what the importing file declares,
//! and when it is left only its exports come into scope. The ledger and
//! the list of shell functions are shared by all files.

use vstd::prelude::*;
use crate::error::{
    circular_fault, lex_fault, redefinition_fault, syntax_fault, unreadable_fault, clone_trace, CompileError, CompileErrorView, Fault, FaultView, Halt,
    HaltView, Position, TraceFrame, TraceFrameView,
};
use crate::history::{
    imports_transitively, is_circular, lemma_imports_compose, lemma_recorded_extends,
    lemma_recorded_import, recorded, Links,
};
use crate::memory::{
    declared, export_name, export_views, imported_decl, merged, ExportUnit, ExportUnitView,
    FunctionDeclView, Memory, MemoryView,
};
use crate::paths::{resolve, resolved};
use crate::source::{
    find_source, lemma_source_index, source_at, source_index, source_views, SourceFile, SourceView,
};
use crate::state::{
    chain_linked, clashes, error_at, lemma_chain_extends, open_files, site_linked, within,
    ParserState, StateView,
};
use crate::translate::{translated_block, TranslateState};
use crate::statement::{
    check_enclosed, holds, inner, is_enclosed, lemma_function_advances, lemma_simple_advances,
    parse_function, parse_simple, parsed_function, parsed_simple, position_at, take_inner,
    token_is, token_position,
};
use crate::syntax::{statement_views, Block, BlockView, Import, Statement, StatementView};
use crate::text::{clone_option, lemma_distinct_within};
use crate::token::{token_views, tokenize, tokenized, Token, TokenView};

verus! {

/// The path that the import directive at token `cursor` gives, as written
/// between its quotes. The directive is four tokens long.
pub open spec fn import_directive(tokens: Seq<TokenView>, cursor: int) -> Result<Seq<char>, FaultView> {
    if !holds(tokens, cursor, "import"@) {
        Err(syntax_fault("'import'"@, position_at(tokens, cursor)))
    } else if !holds(tokens, cursor + 1, "*"@) {
        Err(syntax_fault("'*'"@, position_at(tokens, cursor + 1)))
    } else if !holds(tokens, cursor + 2, "from"@) {
        Err(syntax_fault("'from'"@, position_at(tokens, cursor + 2)))
    } else if !(cursor + 3 < tokens.len() && is_enclosed(tokens[cursor + 3].word, '"')) {
        Err(syntax_fault("a path in double quotes"@, position_at(tokens, cursor + 3)))
    } else {
        Ok(inner(tokens[cursor + 3].word))
    }
}

/// The file that `literal` names when written in the file being parsed,
/// and the state with the import entered in the ledger; or the error of a
/// circular import, reported at `position`. Paths are text here, so a
/// path is always resolved.
pub open spec fn path_resolution(state: StateView, literal: Seq<char>, position: Option<Position>) -> Result<
    (Seq<char>, StateView),
    CompileErrorView,
> {
    let path = resolved(state.source_path, literal);
    if is_circular(state.links, state.source_path, path) {
        Err(error_at(state, circular_fault(position)))
    } else {
        Ok((path, StateView { links: recorded(state.links, state.source_path, path), ..state }))
    }
}

/// What an attempt to read the imported file means for the import: its
/// text, or the error that names the path as written and gives the reason.
pub open spec fn read_outcome(
    state: StateView,
    literal: Seq<char>,
    position: Option<Position>,
    contents: Result<Seq<char>, Seq<char>>,
) -> Result<Seq<char>, CompileErrorView> {
    match contents {
        Ok(code) => Ok(code),
        Err(reason) => Err(error_at(state, unreadable_fault(literal, reason, position))),
    }
}

/// Path, text and state after the path of an import is resolved and its
/// file looked up among `sources`; or the state and the reason why the
/// compilation stops.
pub open spec fn import_resolution(
    state: StateView,
    literal: Seq<char>,
    position: Option<Position>,
    sources: Seq<SourceView>,
) -> Result<(Seq<char>, Seq<char>, StateView), (StateView, HaltView)> {
    match path_resolution(state, literal, position) {
        Err(error) => Err((state, HaltView::Failed(error))),
        Ok((path, next)) => match source_at(sources, path) {
            None => Err((next, HaltView::Needs(path))),
            Some(contents) => match read_outcome(next, literal, position, contents) {
                Err(error) => Err((next, HaltView::Failed(error))),
                Ok(code) => Ok((path, code, next)),
            },
        },
    }
}

/// The state in which an imported file is parsed: its own tokens, text and
/// path, the cursor at the start, the site of the directive on top of the
/// trace, and the ledger as it is. Its symbol table is empty: an imported
/// file is parsed in isolation and sees no declaration of the file that
/// imports it.
pub open spec fn entered(
    state: StateView,
    directive: Position,
    path: Seq<char>,
    code: Seq<char>,
    tokens: Seq<TokenView>,
) -> StateView {
    StateView {
        tokens,
        cursor: 0,
        source_text: Some(code),
        source_path: Some(path),
        memory: MemoryView { functions: Seq::empty(), exports: Seq::empty() },
        links: state.links,
        trace: state.trace.push(TraceFrameView { path: state.source_path, position: directive }),
        shell: state.shell,
    }
}

/// The state after `exports` are declared, as private, in the symbol
/// table; or the redefinition error, reported against the declaration
/// whose name was taken.
pub open spec fn exports_handled(state: StateView, exports: Seq<ExportUnitView>) -> Result<
    StateView,
    CompileErrorView,
> {
    match merged(state.memory.functions, exports) {
        Ok(functions) => Ok(
            StateView {
                memory: MemoryView { functions, exports: state.memory.exports },
                ..state
            },
        ),
        Err(unit) => Err(
            error_at(
                state,
                redefinition_fault(export_name(unit), Some(imported_decl(unit).position)),
            ),
        ),
    }
}

/// What the parse of a file gives: the state at its end with the
/// statements read, or the state where it stopped with the reason.
pub ghost enum UnitOutcome {
    Parsed(StateView, Seq<StatementView>),
    Halted(StateView, HaltView),
}

/// The state after the file at `path`, with text `code` and tokens
/// `tokens`, is parsed in place of the current file and left again, and
/// the block of its statements. The imported file is parsed in
/// isolation: it starts with an empty symbol table, so it sees none of
/// the importing file's declarations, and of its own only the exports
/// come back. When the import fails, the state is the one before it, but
/// for the ledger and the list of shell functions, which keep what the
/// imported file entered.
///
/// An import chain passes through each file at most once, so it is never
/// longer than `sources`; one that is counts as circular.
pub open spec fn import_entered(
    state: StateView,
    directive: Position,
    path: Seq<char>,
    code: Seq<char>,
    tokens: Seq<TokenView>,
    sources: Seq<SourceView>,
) -> Result<(StateView, BlockView), (StateView, HaltView)>
    decreases sources.len() - state.trace.len(), state.tokens.len() - state.cursor, 0int,
{
    if state.trace.len() >= sources.len() {
        Err((state, HaltView::Failed(error_at(state, circular_fault(Some(directive))))))
    } else {
        let inside = entered(state, directive, path, code, tokens);
        match parsed_unit(inside, sources, Seq::empty()) {
            UnitOutcome::Halted(end, halt) => Err(
                (StateView { links: end.links, shell: end.shell, ..state }, halt),
            ),
            UnitOutcome::Parsed(end, statements) => {
                let back = StateView {
                    memory: state.memory,
                    links: end.links,
                    shell: end.shell,
                    ..inside
                };
                match exports_handled(back, end.memory.exports) {
                    Err(error) => Err(
                        (
                            StateView { links: end.links, shell: end.shell, ..state },
                            HaltView::Failed(error),
                        ),
                    ),
                    Ok(merged_state) => Ok(
                        (
                            StateView {
                                memory: merged_state.memory,
                                links: end.links,
                                shell: end.shell,
                                ..state
                            },
                            BlockView { statements, scopeless: true },
                        ),
                    ),
                }
            },
        }
    }
}

/// The state after the file at `path` with text `code` is tokenized and
/// entered, and the block of its statements. A text that does not split
/// into tokens fails the import with the lex error, reported against the
/// imported file, and leaves the state as it was.
pub open spec fn import_handled(
    state: StateView,
    directive: Position,
    path: Seq<char>,
    code: Seq<char>,
    sources: Seq<SourceView>,
) -> Result<(StateView, BlockView), (StateView, HaltView)>
    decreases sources.len() - state.trace.len(), state.tokens.len() - state.cursor, 1int,
{
    match tokenized(code) {
        Err(failure) => Err(
            (
                state,
                HaltView::Failed(
                    error_at(
                        entered(state, directive, path, code, Seq::empty()),
                        lex_fault(failure),
                    ),
                ),
            ),
        ),
        Ok(tokens) => import_entered(state, directive, path, code, tokens, sources),
    }
}

/// The state after the import of `literal` is resolved, read from
/// `sources` and handled, and the block of the imported statements.
pub open spec fn imported_file(
    state: StateView,
    literal: Seq<char>,
    directive: Position,
    position: Option<Position>,
    sources: Seq<SourceView>,
) -> Result<(StateView, BlockView), (StateView, HaltView)>
    decreases sources.len() - state.trace.len(), state.tokens.len() - state.cursor, 2int,
{
    match import_resolution(state, literal, position, sources) {
        Err(halt) => Err(halt),
        Ok((path, code, next)) => import_handled(next, directive, path, code, sources),
    }
}

/// The parse of the rest of the current file, from the cursor on, after
/// the statements `done`.
///
/// Every function becomes a shell function of its own name, whatever
/// file declares it. A declaration is refused as a redefinition where
/// the shell text already holds a function of that name with another
/// body, be it a private function of another file: nothing is shadowed
/// silently. The same function met again, when a file is imported
/// twice, is no clash.
pub open spec fn parsed_unit(state: StateView, sources: Seq<SourceView>, done: Seq<StatementView>) -> UnitOutcome
    decreases sources.len() - state.trace.len(), state.tokens.len() - state.cursor, 3int,
{
    let tokens = state.tokens;
    let cursor = state.cursor;
    if !(0 <= cursor < tokens.len()) {
        UnitOutcome::Parsed(state, done)
    } else if holds(tokens, cursor, "import"@) {
        match import_directive(tokens, cursor) {
            Err(fault) => UnitOutcome::Halted(state, HaltView::Failed(error_at(state, fault))),
            Ok(literal) => match imported_file(
                StateView { cursor: cursor + 4, ..state },
                literal,
                Position { row: tokens[cursor].row, col: tokens[cursor].col },
                position_at(tokens, cursor + 3),
                sources,
            ) {
                Err((end, halt)) => UnitOutcome::Halted(end, halt),
                Ok((next, block)) => parsed_unit(
                    StateView { tokens, cursor: cursor + 4, trace: state.trace, ..next },
                    sources,
                    done.push(StatementView::Import { path: literal, block }),
                ),
            },
        }
    } else if holds(tokens, cursor, "pub"@) || holds(tokens, cursor, "fun"@) {
        match parsed_function(tokens, cursor, state.memory.functions) {
            Err(fault) => UnitOutcome::Halted(state, HaltView::Failed(error_at(state, fault))),
            Ok((decl, body, next)) => {
                proof {
                    lemma_function_advances(tokens, cursor, state.memory.functions);
                }
                let text = translated_block(body, None);
                if clashes(state.shell, decl.name, text) {
                    UnitOutcome::Halted(
                        state,
                        HaltView::Failed(
                            error_at(state, redefinition_fault(decl.name, Some(decl.position))),
                        ),
                    )
                } else {
                    parsed_unit(
                        StateView {
                            cursor: next,
                            memory: declared(state.memory, decl),
                            shell: state.shell.push((decl.name, text)),
                            ..state
                        },
                        sources,
                        done.push(StatementView::Function { name: decl.name, body }),
                    )
                }
            },
        }
    } else {
        match parsed_simple(tokens, cursor, state.memory.functions) {
            Err(fault) => UnitOutcome::Halted(state, HaltView::Failed(error_at(state, fault))),
            Ok((statement, next)) => parsed_unit(
                StateView { cursor: next, ..state },
                sources,
                done.push(statement),
            ),
        }
    }
}

/// The state behind the import directive at the cursor, with the import
/// statement; or the state where the compilation stops, with the reason.
pub open spec fn imported(state: StateView, sources: Seq<SourceView>) -> Result<
    (StateView, StatementView),
    (StateView, HaltView),
> {
    let tokens = state.tokens;
    let cursor = state.cursor;
    match import_directive(tokens, cursor) {
        Err(fault) => Err((state, HaltView::Failed(error_at(state, fault)))),
        Ok(literal) => match imported_file(
            StateView { cursor: cursor + 4, ..state },
            literal,
            Position { row: tokens[cursor].row, col: tokens[cursor].col },
            position_at(tokens, cursor + 3),
            sources,
        ) {
            Err(halt) => Err(halt),
            Ok((next, block)) => Ok((next, StatementView::Import { path: literal, block })),
        },
    }
}

/// Whether two states read the same file at the same depth of imports.
pub open spec fn same_file(a: StateView, b: StateView) -> bool {
    &&& a.tokens == b.tokens
    &&& a.source_text == b.source_text
    &&& a.source_path == b.source_path
    &&& a.trace == b.trace
}

/// Whether the ledger shows that the file `current` imports `path`.
/// Inline text lies in no file and leaves no entry.
pub open spec fn imported_here(links: Links, current: Option<Seq<char>>, path: Seq<char>) -> bool {
    match current {
        Some(file) => imports_transitively(links, file, path),
        None => true,
    }
}

/// Whether the file at `path` may be entered from `state`: it is among
/// `sources` and none of the open imports passes through it.
pub open spec fn admits(state: StateView, path: Seq<char>, sources: Seq<SourceView>) -> bool {
    &&& within(state.trace, state.source_path, sources)
    &&& source_index(sources, path) is Some
    &&& !open_files(state.trace, state.source_path).contains(Some(path))
}

/// An import that the ledger accepts names none of the files that the
/// open imports pass through: each of them imports the current file.
pub proof fn lemma_accepted_is_fresh(
    trace: Seq<TraceFrameView>,
    current: Option<Seq<char>>,
    links: Links,
    path: Seq<char>,
)
    requires
        chain_linked(trace, current, links),
        !is_circular(links, current, path),
    ensures
        !open_files(trace, current).contains(Some(path)),
{
    let files = open_files(trace, current);
    if files.contains(Some(path)) {
        let i = choose|i: int| 0 <= i < files.len() && files[i] == Some(path);
        if i == files.len() - 1 {
            assert(crate::history::leads_to(links, path, path, 0));
        } else {
            assert(files[i] == trace[i + 1].path);
            assert(site_linked(trace, current, links, i + 1));
        }
    }
}

/// Entering an import that the ledger shows keeps the ledger accounting
/// for the trace.
pub proof fn lemma_chain_enters(
    trace: Seq<TraceFrameView>,
    current: Option<Seq<char>>,
    links: Links,
    directive: Position,
    path: Seq<char>,
)
    requires
        chain_linked(trace, current, links),
        imported_here(links, current, path),
    ensures
        chain_linked(
            trace.push(TraceFrameView { path: current, position: directive }),
            Some(path),
            links,
        ),
{
    let deeper = trace.push(TraceFrameView { path: current, position: directive });
    assert forall|i: int| 0 <= i < deeper.len() implies #[trigger] site_linked(
        deeper,
        Some(path),
        links,
        i,
    ) by {
        if i < trace.len() {
            assert(deeper[i] == trace[i]);
            assert(site_linked(trace, current, links, i));
            if let Some(file) = trace[i].path {
                lemma_imports_compose(links, file, current->Some_0, path);
            }
        }
    }
}

/// Entering a file that the state admits keeps the open imports within
/// the sources, and there are fewer of them than sources: the depth of
/// imports never reaches the number of files at hand.
pub proof fn lemma_within_enters(state: StateView, directive: Position, path: Seq<char>, sources: Seq<SourceView>)
    requires
        admits(state, path, sources),
    ensures
        within(
            state.trace.push(TraceFrameView { path: state.source_path, position: directive }),
            Some(path),
            sources,
        ),
        state.trace.len() < sources.len(),
{
    let trace = state.trace;
    let deeper = trace.push(TraceFrameView { path: state.source_path, position: directive });
    let before = open_files(trace, state.source_path);
    let files = open_files(deeper, Some(path));
    assert(files =~= before.push(Some(path))) by {
        if trace.len() > 0 {
            let inner = deeper.subrange(1, deeper.len() as int).map_values(
                |f: TraceFrameView| f.path,
            );
            let old_inner = trace.subrange(1, trace.len() as int).map_values(
                |f: TraceFrameView| f.path,
            );
            assert(inner =~= old_inner.push(state.source_path));
        }
    }
    assert(files.len() == trace.len() + 1);
    assert forall|i: int, j: int| 0 <= i < files.len() && 0 <= j < files.len() && i != j implies files[i]
        != files[j] by {
        if i < before.len() && j < before.len() {
            assert(before[i] != before[j]);
        } else if i < before.len() {
            assert(before[i] == files[i]);
        } else {
            assert(before[j] == files[j]);
        }
    }
    assert forall|i: int| 0 <= i < files.len() implies ((#[trigger] files[i]) matches Some(file)
        && source_index(sources, file) is Some) by {
        if i < before.len() {
            assert(files[i] == before[i]);
        }
    }
    let list = files.map_values(|f: Option<Seq<char>>| f->Some_0);
    let pool = sources.map_values(|s: SourceView| s.path);
    assert forall|i: int, j: int| 0 <= i < list.len() && 0 <= j < list.len() && i != j implies list[i]
        != list[j] by {
        assert(files[i] is Some && files[j] is Some);
        assert(files[i] != files[j]);
    }
    assert forall|j: int| 0 <= j < list.len() implies pool.contains(#[trigger] list[j]) by {
        assert(files[j] is Some);
        lemma_source_index(sources, list[j]);
        let k = source_index(sources, list[j])->Some_0;
        assert(pool[k] == list[j]);
    }
    lemma_distinct_within(list, pool);
}

/// Whether only the ledger may differ between two states.
pub open spec fn same_but_links(a: StateView, b: StateView) -> bool {
    a == (StateView { links: a.links, ..b })
}

/// Matches the import directive at `cursor` against the grammar and gives
/// the path written between its quotes.
pub fn match_directive(tokens: &Vec<Token>, cursor: usize) -> (r: Result<String, Fault>)
    ensures
        match r {
            Ok(literal) => import_directive(token_views(tokens@), cursor as int) == Ok::<
                Seq<char>,
                FaultView,
            >(literal@),
            Err(fault) => import_directive(token_views(tokens@), cursor as int) == Err::<
                Seq<char>,
                FaultView,
            >(fault@),
        },
{
    let n: usize = tokens.len();
    if !token_is(tokens, cursor, "import") {
        return Err(Fault::syntax("'import'", token_position(tokens, cursor)));
    }
    if !token_is(tokens, cursor + 1, "*") {
        return Err(Fault::syntax("'*'", token_position(tokens, cursor + 1)));
    }
    if !token_is(tokens, cursor + 2, "from") {
        return Err(Fault::syntax("'from'", token_position(tokens, cursor + 2)));
    }
    if !(cursor + 3 < n && check_enclosed(&tokens[cursor + 3].word, '"')) {
        return Err(Fault::syntax("a path in double quotes", token_position(tokens, cursor + 3)));
    }
    assert(token_views(tokens@)[cursor + 3].word == tokens@[cursor + 3].word@);
    Ok(take_inner(&tokens[cursor + 3].word))
}

impl Import {
    /// An import of nothing yet: no path, no statements.
    pub fn new() -> (import: Import)
        ensures
            import@ == (StatementView::Import {
                path: Seq::empty(),
                block: BlockView { statements: Seq::empty(), scopeless: false },
            }),
    {
        let block = Block::new(Vec::new(), false);
        assert(block@.statements =~= Seq::<StatementView>::empty());
        Import { path: String::new(), block }
    }

    /// Resolves the path of this import against the directory of the file
    /// being parsed and enters the import in the ledger. Fails, and leaves
    /// the state as it was, if the import would close a circle, and for no
    /// other reason.
    pub fn resolve_path(&self, meta: &mut ParserState, position: Option<Position>) -> (r: Result<
        String,
        CompileError,
    >)
        ensures
            old(meta).wf() ==> final(meta).wf(),
            same_but_links(final(meta)@, old(meta)@),
            old(meta)@.links.is_prefix_of(final(meta)@.links),
            match path_resolution(old(meta)@, self.path@, position) {
                Ok((path, next)) => r matches Ok(p) && p@ == path && final(meta)@ == next,
                Err(error) => r matches Err(e) && e@ == error && final(meta)@ == old(meta)@,
            },
    {
        let ghost start = meta@;
        let path = resolve(&meta.source_path, self.path.as_str());
        if !meta.import_history.add_import(&meta.source_path, &path) {
            return Err(meta.error(Fault::circular(position)));
        }
        proof {
            lemma_recorded_extends(start.links, start.source_path, path@);
            if chain_linked(start.trace, start.source_path, start.links) {
                lemma_chain_extends(start.trace, start.source_path, start.links, meta@.links);
            }
        }
        Ok(path)
    }

    /// What an attempt to read the imported file means for this import.
    pub fn read_outcome(
        &self,
        meta: &ParserState,
        position: Option<Position>,
        contents: &Result<String, String>,
    ) -> (r: Result<String, CompileError>)
        ensures
            match read_outcome(
                meta@,
                self.path@,
                position,
                match *contents {
                    Ok(text) => Ok(text@),
                    Err(reason) => Err(reason@),
                },
            ) {
                Ok(code) => r matches Ok(c) && c@ == code,
                Err(error) => r matches Err(e) && e@ == error,
            },
    {
        match contents {
            Ok(code) => Ok(code.clone()),
            Err(reason) => Err(
                meta.error(Fault::unreadable(self.path.as_str(), reason.as_str(), position)),
            ),
        }
    }

    /// Resolves the path of this import and takes the text of its file
    /// from `sources`. Gives the resolved path and the text.
    pub fn resolve_import(
        &self,
        meta: &mut ParserState,
        position: Option<Position>,
        sources: &Vec<SourceFile>,
    ) -> (r: Result<(String, String), Halt>)
        ensures
            old(meta).wf() ==> final(meta).wf(),
            same_but_links(final(meta)@, old(meta)@),
            old(meta)@.links.is_prefix_of(final(meta)@.links),
            match import_resolution(old(meta)@, self.path@, position, source_views(sources@)) {
                Ok((path, code, next)) => r matches Ok((p, c)) && p@ == path && c@ == code
                    && final(meta)@ == next,
                Err((end, halt)) => r matches Err(h) && h@ == halt && final(meta)@ == end,
            },
    {
        let path = match self.resolve_path(meta, position) {
            Ok(path) => path,
            Err(error) => {
                return Err(Halt::Failed(error));
            },
        };
        match find_source(sources, &path) {
            None => Err(Halt::Needs(path)),
            Some(i) => {
                assert(source_views(sources@)[i as int] == sources@[i as int]@);
                match self.read_outcome(meta, position, &sources[i].contents) {
                    Ok(code) => Ok((path, code)),
                    Err(error) => Err(Halt::Failed(error)),
                }
            },
        }
    }

    /// Declares `exports` in the symbol table, each as a private function.
    /// If a name is taken, nothing is declared and the error is reported
    /// against the export whose name it is.
    pub fn handle_export(&self, meta: &mut ParserState, exports: &Vec<ExportUnit>) -> (r: Result<
        (),
        CompileError,
    >)
        requires
            old(meta).wf(),
        ensures
            final(meta).wf(),
            match exports_handled(old(meta)@, export_views(exports@)) {
                Ok(next) => r is Ok && final(meta)@ == next,
                Err(error) => r matches Err(e) && e@ == error && final(meta)@ == old(meta)@,
            },
    {
        let ghost start = meta@;
        let ghost units = export_views(exports@);
        let kept: usize = meta.memory.functions.len();
        let mut i: usize = 0;
        assert(units.subrange(0, units.len() as int) =~= units);
        while i < exports.len()
            invariant
                i <= exports.len(),
                units == export_views(exports@),
                start == old(meta)@,
                old(meta).wf(),
                meta.wf(),
                meta@ == (StateView {
                    memory: MemoryView {
                        functions: meta@.memory.functions,
                        exports: start.memory.exports,
                    },
                    ..start
                }),
                kept == start.memory.functions.len(),
                meta@.memory.functions.len() >= kept,
                meta@.memory.functions.subrange(0, kept as int) == start.memory.functions,
                merged(meta@.memory.functions, units.subrange(i as int, units.len() as int))
                    == merged(start.memory.functions, units),
            decreases exports.len() - i,
        {
            let ghost rest = units.subrange(i as int, units.len() as int);
            let ghost before = meta@.memory.functions;
            assert(rest[0] == exports@[i as int]@);
            assert(rest.drop_first() =~= units.subrange(i + 1, units.len() as int));
            match &exports[i] {
                ExportUnit::Function(decl) => {
                    let mut func_decl = decl.duplicate();
                    func_decl.is_public = false;
                    assert(func_decl@ == imported_decl(rest[0]));
                    if !meta.memory.add_existing_function_declaration(func_decl) {
                        assert(merged(before, rest) == Err::<Seq<FunctionDeclView>, ExportUnitView>(
                            rest[0],
                        ));
                        assert(export_name(rest[0]) == decl.name@);
                        assert(imported_decl(rest[0]).position == decl.position);
                        meta.memory.functions.truncate(kept);
                        assert(meta@.memory.functions =~= start.memory.functions);
                        assert(meta@ == start);
                        return Err(
                            meta.error(
                                Fault::redefinition(decl.name.as_str(), Some(decl.position)),
                            ),
                        );
                    }
                    assert(meta@.memory.functions.subrange(0, kept as int) =~= before.subrange(
                        0,
                        kept as int,
                    ));
                },
            }
            i = i + 1;
        }
        Ok(())
    }

    /// Parses the file at `path`, with text `code` and tokens `tokens`,
    /// in place of the current file: saves what says which file is being
    /// read, puts the imported file there with an empty symbol table,
    /// parses it, declares what it exports, and puts the saved fields
    /// back. On success this import holds the statements of the file as a
    /// scopeless block. On failure the state is as before, up to new
    /// entries in the ledger.
    ///
    /// The import must have passed the ledger: `path` is entered there as
    /// imported by the current file, it is among `sources`, and no open
    /// import passes through it.
    pub fn enter(
        &mut self,
        meta: &mut ParserState,
        directive: Position,
        path: String,
        code: String,
        tokens: Vec<Token>,
        sources: &Vec<SourceFile>,
    ) -> (r: Result<(), Halt>)
        requires
            old(meta).wf(),
            imported_here(old(meta)@.links, old(meta)@.source_path, path@),
            admits(old(meta)@, path@, source_views(sources@)),
        ensures
            final(meta).wf(),
            same_file(final(meta)@, old(meta)@),
            final(meta)@.cursor == old(meta)@.cursor,
            old(meta)@.links.is_prefix_of(final(meta)@.links),
            match import_entered(
                old(meta)@,
                directive,
                path@,
                code@,
                token_views(tokens@),
                source_views(sources@),
            ) {
                Ok((next, block)) => r is Ok && final(meta)@ == next && final(self)@ == (
                StatementView::Import { path: old(self).path@, block }),
                Err((end, halt)) => r matches Err(h) && h@ == halt && final(meta)@ == end
                    && final(self)@ == old(self)@,
            },
        decreases
                sources@.len() - old(meta)@.trace.len(),
                old(meta)@.tokens.len() - old(meta)@.cursor,
                0int,
    {
        let ghost start = meta@;
        let ghost files = source_views(sources@);
        proof {
            lemma_within_enters(start, directive, path@, files);
            lemma_chain_enters(start.trace, start.source_path, start.links, directive, path@);
        }
        let ghost inside = entered(start, directive, path@, code@, token_views(tokens@));
        let frame = TraceFrame { path: clone_option(&meta.source_path), position: directive };
        // Save the current file and put the imported one in its place.
        let index = meta.get_index();
        let mut tokens = tokens;
        let mut text = Some(code);
        let mut file = Some(path);
        let mut memory = Memory::new();
        std::mem::swap(&mut meta.tokens, &mut tokens);
        std::mem::swap(&mut meta.source_text, &mut text);
        std::mem::swap(&mut meta.source_path, &mut file);
        std::mem::swap(&mut meta.memory, &mut memory);
        meta.cursor = 0;
        meta.push_trace(frame);
        assert(meta@ == inside);
        // Parse the imported file.
        let parsed = Block::parse(meta, sources);
        let ghost end = meta@;
        // Take what it exports and declare it in the importing file.
        std::mem::swap(&mut meta.memory, &mut memory);
        let outcome = match parsed {
            Err(halt) => Err(halt),
            Ok(block) => {
                match self.handle_export(meta, &memory.exports) {
                    Err(error) => Err(Halt::Failed(error)),
                    Ok(()) => {
                        self.block = block;
                        self.block.set_scopeless();
                        Ok(())
                    },
                }
            },
        };
        // Put the current file back.
        std::mem::swap(&mut meta.tokens, &mut tokens);
        std::mem::swap(&mut meta.source_text, &mut text);
        std::mem::swap(&mut meta.source_path, &mut file);
        meta.cursor = index;
        meta.pop_trace();
        proof {
            assert(meta@.trace =~= start.trace);
            lemma_chain_extends(start.trace, start.source_path, start.links, end.links);
        }
        outcome
    }

    /// Tokenizes the text `code` of the file at `path` and enters the
    /// file. A text that does not split into tokens fails the import
    /// with the lex error, reported against the imported file.
    ///
    /// The import must have passed the ledger, as for [`Import::enter`].
    pub fn handle_import(
        &mut self,
        meta: &mut ParserState,
        directive: Position,
        path: String,
        code: String,
        sources: &Vec<SourceFile>,
    ) -> (r: Result<(), Halt>)
        requires
            old(meta).wf(),
            imported_here(old(meta)@.links, old(meta)@.source_path, path@),
            admits(old(meta)@, path@, source_views(sources@)),
        ensures
            final(meta).wf(),
            same_file(final(meta)@, old(meta)@),
            final(meta)@.cursor == old(meta)@.cursor,
            old(meta)@.links.is_prefix_of(final(meta)@.links),
            match import_handled(old(meta)@, directive, path@, code@, source_views(sources@)) {
                Ok((next, block)) => r is Ok && final(meta)@ == next && final(self)@ == (
                StatementView::Import { path: old(self).path@, block }),
                Err((end, halt)) => r matches Err(h) && h@ == halt && final(meta)@ == end
                    && final(self)@ == old(self)@,
            },
        decreases
                sources@.len() - old(meta)@.trace.len(),
                old(meta)@.tokens.len() - old(meta)@.cursor,
                1int,
    {
        match tokenize(code.as_str()) {
            Err(failure) => {
                let frame = TraceFrame {
                    path: clone_option(&meta.source_path),
                    position: directive,
                };
                let mut trace = clone_trace(&meta.trace_stack);
                let ghost before = crate::error::trace_views(trace@);
                trace.push(frame);
                assert(crate::error::trace_views(trace@) =~= before.push(frame@));
                Err(Halt::Failed(CompileError::new(Fault::lex(&failure), &Some(path), &trace)))
            },
            Ok(tokens) => self.enter(meta, directive, path, code, tokens, sources),
        }
    }

    /// Parses the import directive at the cursor and the file it names.
    /// On success the cursor stands behind the directive.
    pub fn parse(meta: &mut ParserState, sources: &Vec<SourceFile>) -> (r: Result<Import, Halt>)
        requires
            old(meta).wf(),
            within(old(meta)@.trace, old(meta)@.source_path, source_views(sources@)),
        ensures
            final(meta).wf(),
            same_file(final(meta)@, old(meta)@),
            old(meta)@.links.is_prefix_of(final(meta)@.links),
            match imported(old(meta)@, source_views(sources@)) {
                Ok((next, statement)) => r matches Ok(import) && import@ == statement
                    && final(meta)@ == next,
                Err((end, halt)) => r matches Err(h) && h@ == halt && final(meta)@ == end,
            },
        decreases
                sources@.len() - old(meta)@.trace.len(),
                old(meta)@.tokens.len() - old(meta)@.cursor,
                2int,
    {
        let ghost files = source_views(sources@);
        let start: usize = meta.cursor;
        let n: usize = meta.tokens.len();
        let literal = match match_directive(&meta.tokens, start) {
            Ok(literal) => literal,
            Err(fault) => {
                return Err(Halt::Failed(meta.error(fault)));
            },
        };
        let directive = Position { row: meta.tokens[start].row, col: meta.tokens[start].col };
        let at = token_position(&meta.tokens, start + 3);
        meta.set_index(start + 4);
        let ghost asked = meta@;
        let mut import = Import::new();
        import.path = literal;
        let (path, code) = match import.resolve_import(meta, at, sources) {
            Ok(found) => found,
            Err(halt) => {
                return Err(halt);
            },
        };
        proof {
            lemma_accepted_is_fresh(asked.trace, asked.source_path, asked.links, path@);
            if let Some(current) = asked.source_path {
                lemma_recorded_import(asked.links, current, path@);
            }
        }
        match import.handle_import(meta, directive, path, code, sources) {
            Ok(()) => Ok(import),
            Err(halt) => Err(halt),
        }
    }

    /// The statements of the imported file.
    pub fn block(&self) -> (block: &Block)
        ensures
            self@ == (StatementView::Import { path: self.path@, block: block@ }),
    {
        &self.block
    }
}

impl Block {
    /// Parses the file in `meta` from the cursor to its end: the root of
    /// every parse. An import directive is followed into the file it
    /// names; `sources` holds the files at hand. Stops with
    /// `Halt::Needs` at the first import whose file is not among them.
    pub fn parse(meta: &mut ParserState, sources: &Vec<SourceFile>) -> (r: Result<Block, Halt>)
        requires
            old(meta).wf(),
            within(old(meta)@.trace, old(meta)@.source_path, source_views(sources@)),
        ensures
            final(meta).wf(),
            same_file(final(meta)@, old(meta)@),
            old(meta)@.links.is_prefix_of(final(meta)@.links),
            match parsed_unit(old(meta)@, source_views(sources@), Seq::empty()) {
                UnitOutcome::Parsed(end, statements) => r matches Ok(block) && block@ == (
                BlockView { statements, scopeless: false }) && final(meta)@ == end,
                UnitOutcome::Halted(end, halt) => r matches Err(h) && h@ == halt && final(meta)@
                    == end,
            },
        decreases
                sources@.len() - old(meta)@.trace.len(),
                old(meta)@.tokens.len() - old(meta)@.cursor,
                3int,
    {
        let ghost start = meta@;
        let ghost files = source_views(sources@);
        let mut statements: Vec<Statement> = Vec::new();
        assert(statement_views(statements@) =~= Seq::<StatementView>::empty());
        loop
            invariant
                meta.wf(),
                start == old(meta)@,
                files == source_views(sources@),
                same_file(meta@, start),
                meta@.cursor >= start.cursor,
                start.links.is_prefix_of(meta@.links),
                within(start.trace, start.source_path, files),
                parsed_unit(meta@, files, statement_views(statements@)) == parsed_unit(
                    start,
                    files,
                    Seq::empty(),
                ),
            decreases meta@.tokens.len() - meta@.cursor,
        {
            let ghost now = meta@;
            let ghost done = statement_views(statements@);
            let cursor: usize = meta.cursor;
            if cursor >= meta.tokens.len() {
                return Ok(Block::new(statements, false));
            }
            if token_is(&meta.tokens, cursor, "import") {
                match Import::parse(meta, sources) {
                    Ok(import) => {
                        statements.push(Statement::Import(import));
                        assert(statement_views(statements@) =~= done.push(import@));
                    },
                    Err(halt) => {
                        return Err(halt);
                    },
                }
            } else if token_is(&meta.tokens, cursor, "pub") || token_is(
                &meta.tokens,
                cursor,
                "fun",
            ) {
                proof {
                    lemma_function_advances(now.tokens, cursor as int, now.memory.functions);
                }
                match parse_function(&meta.tokens, cursor, &meta.memory) {
                    Ok((decl, body, next)) => {
                        let name = decl.name.clone();
                        let ghost view = decl@;
                        let mut outside = TranslateState::new();
                        let text = body.translate(&mut outside);
                        if meta.clashes(&name, &text) {
                            return Err(
                                Halt::Failed(
                                    meta.error(
                                        Fault::redefinition(name.as_str(), Some(decl.position)),
                                    ),
                                ),
                            );
                        }
                        meta.add_shell_function(name.clone(), text);
                        meta.memory.add_function(decl);
                        meta.cursor = next;
                        let statement = Statement::Function { name, body };
                        statements.push(statement);
                        assert(statement_views(statements@) =~= done.push(
                            StatementView::Function { name: view.name, body: body@ },
                        ));
                    },
                    Err(fault) => {
                        return Err(Halt::Failed(meta.error(fault)));
                    },
                }
            } else {
                proof {
                    lemma_simple_advances(now.tokens, cursor as int, now.memory.functions);
                }
                match parse_simple(&meta.tokens, cursor, &meta.memory) {
                    Ok((statement, next)) => {
                        meta.cursor = next;
                        statements.push(statement);
                        assert(statement_views(statements@) =~= done.push(statement@));
                    },
                    Err(fault) => {
                        return Err(Halt::Failed(meta.error(fault)));
                    },
                }
            }
        }
    }
}

} // verus!
