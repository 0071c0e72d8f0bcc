//! What holds of every compilation, proved from the definitions.

use vstd::prelude::*;
use crate::compiler::{compiled, OutcomeView};
use crate::error::{
    circular_fault, lex_fault, unreadable_fault, ErrorKind, HaltView, Position, TraceFrameView,
};
use crate::history::{is_circular, lemma_self_import_is_circular, recorded};
use crate::import::{
    entered, exports_handled, import_directive, import_entered, import_handled,
    import_resolution, imported_file, lemma_accepted_is_fresh, lemma_within_enters, parsed_unit,
    path_resolution, UnitOutcome,
};
use crate::memory::{
    declared, declares, export_name, imported_decl, lemma_declared_keeps_order,
    lemma_exports_distinct, lemma_merged_distinct, lemma_merged_err, lemma_merged_keeps_order,
    lemma_merged_ok, memory_ok, merged, name_taken, public_units, ExportUnitView,
};
use crate::paths::{
    directory_of, has_cur_dir, is_component, is_settled, joined, lemma_directory_is_settled,
    lemma_directory_of_joined, lemma_dot_is_trimmed, lemma_parent_bounds, parent_len, resolved,
    trimmed,
};
use crate::source::{lemma_source_index, source_at, SourceView};
use crate::state::{
    chain_linked, clashes, error_at, initial_state, site_linked, within, StateView,
};
use crate::statement::{
    holds, lemma_function_advances, lemma_simple_advances, parsed_function, parsed_simple,
    position_at,
};
use crate::syntax::{BlockView, StatementView};
use crate::token::{tokenized, TokenView};
use crate::translate::translated_block;

verus! {

/// Whether no token reads `import`.
pub open spec fn has_no_import(tokens: Seq<TokenView>) -> bool {
    forall|i: int| 0 <= i < tokens.len() ==> (#[trigger] tokens[i]).word != "import"@
}

/// The parse of a file without import directives does not depend on the
/// files at hand, and asks for none.
pub proof fn lemma_unit_without_imports(
    state: StateView,
    first: Seq<SourceView>,
    second: Seq<SourceView>,
    done: Seq<StatementView>,
)
    requires
        has_no_import(state.tokens),
    ensures
        parsed_unit(state, first, done) == parsed_unit(state, second, done),
        !(parsed_unit(state, first, done) matches UnitOutcome::Halted(_, HaltView::Needs(_))),
    decreases state.tokens.len() - state.cursor,
{
    let tokens = state.tokens;
    let cursor = state.cursor;
    if 0 <= cursor < tokens.len() {
        assert(tokens[cursor].word != "import"@);
        if holds(tokens, cursor, "pub"@) || holds(tokens, cursor, "fun"@) {
            lemma_function_advances(tokens, cursor, state.memory.functions);
            if let Ok((decl, body, next)) = parsed_function(tokens, cursor, state.memory.functions) {
                lemma_unit_without_imports(
                    StateView {
                        cursor: next,
                        memory: declared(state.memory, decl),
                        shell: state.shell.push((decl.name, translated_block(body, None))),
                        ..state
                    },
                    first,
                    second,
                    done.push(StatementView::Function { name: decl.name, body }),
                );
            }
        } else {
            lemma_simple_advances(tokens, cursor, state.memory.functions);
            if let Ok((statement, next)) = parsed_simple(tokens, cursor, state.memory.functions) {
                lemma_unit_without_imports(
                    StateView { cursor: next, ..state },
                    first,
                    second,
                    done.push(statement),
                );
            }
        }
    }
}

/// Determinism: a text without import directives compiles to the same
/// outcome whatever files are at hand, and the outcome is shell text or an
/// error, never a request for a file.
pub proof fn lemma_compile_without_imports(
    code: Seq<char>,
    path: Option<Seq<char>>,
    first: Seq<SourceView>,
    second: Seq<SourceView>,
)
    requires
        tokenized(code) matches Ok(tokens) ==> has_no_import(tokens),
    ensures
        compiled(code, path, first) == compiled(code, path, second),
        !(compiled(code, path, first) is Needs),
{
    if let Ok(tokens) = tokenized(code) {
        lemma_unit_without_imports(initial_state(tokens, path, Some(code)), first, second, Seq::empty());
    }
}

/// Whether `state` is one that a parse can be in: the ledger accounts
/// for the trace, the open imports lie within `sources`, and the symbol
/// table is in order.
pub open spec fn is_valid(state: StateView, sources: Seq<SourceView>) -> bool {
    &&& chain_linked(state.trace, state.source_path, state.links)
    &&& within(state.trace, state.source_path, sources)
    &&& memory_ok(state.memory)
}

/// An import that succeeds keeps the symbol table in order and leaves
/// tokens, cursor, text, path and trace as they were.
pub proof fn lemma_import_keeps_memory(
    state: StateView,
    literal: Seq<char>,
    directive: Position,
    position: Option<Position>,
    sources: Seq<SourceView>,
)
    requires
        memory_ok(state.memory),
    ensures
        imported_file(state, literal, directive, position, sources) matches Ok((next, _))
            ==> memory_ok(next.memory) && next == (StateView {
            memory: next.memory,
            links: next.links,
            shell: next.shell,
            ..state
        }),
{
    if let Ok((path, code, asked)) = import_resolution(state, literal, position, sources) {
        if let Ok(tokens) = tokenized(code) {
            if asked.trace.len() < sources.len() {
                let inside = entered(asked, directive, path, code, tokens);
                if let UnitOutcome::Parsed(end, _) = parsed_unit(inside, sources, Seq::empty()) {
                    if merged(state.memory.functions, end.memory.exports) is Ok {
                        lemma_merged_keeps_order(state.memory, end.memory.exports);
                    }
                }
            }
        }
    }
}

/// A parse that succeeds keeps the symbol table in order: at its end no
/// name is declared twice and the exports are the public declarations,
/// each under a name of its own.
pub proof fn lemma_unit_keeps_memory(state: StateView, sources: Seq<SourceView>, done: Seq<StatementView>)
    requires
        memory_ok(state.memory),
    ensures
        parsed_unit(state, sources, done) matches UnitOutcome::Parsed(end, _) ==> memory_ok(
            end.memory,
        ),
    decreases state.tokens.len() - state.cursor,
{
    let tokens = state.tokens;
    let cursor = state.cursor;
    if 0 <= cursor < tokens.len() {
        if holds(tokens, cursor, "import"@) {
            if let Ok(literal) = import_directive(tokens, cursor) {
                let after = StateView { cursor: cursor + 4, ..state };
                let directive = Position { row: tokens[cursor].row, col: tokens[cursor].col };
                let position = position_at(tokens, cursor + 3);
                lemma_import_keeps_memory(after, literal, directive, position, sources);
                if let Ok((next, block)) = imported_file(after, literal, directive, position, sources) {
                    lemma_unit_keeps_memory(
                        StateView { tokens, cursor: cursor + 4, trace: state.trace, ..next },
                        sources,
                        done.push(StatementView::Import { path: literal, block }),
                    );
                }
            }
        } else if holds(tokens, cursor, "pub"@) || holds(tokens, cursor, "fun"@) {
            lemma_function_advances(tokens, cursor, state.memory.functions);
            if let Ok((decl, body, next)) = parsed_function(tokens, cursor, state.memory.functions) {
                lemma_declared_keeps_order(state.memory, decl);
                lemma_unit_keeps_memory(
                    StateView {
                        cursor: next,
                        memory: declared(state.memory, decl),
                        shell: state.shell.push((decl.name, translated_block(body, None))),
                        ..state
                    },
                    sources,
                    done.push(StatementView::Function { name: decl.name, body }),
                );
            }
        } else {
            lemma_simple_advances(tokens, cursor, state.memory.functions);
            if let Ok((statement, next)) = parsed_simple(tokens, cursor, state.memory.functions) {
                lemma_unit_keeps_memory(
                    StateView { cursor: next, ..state },
                    sources,
                    done.push(statement),
                );
            }
        }
    }
}

/// An import succeeds if and only if it closes no circle, the file is at
/// hand and was read, its text splits into tokens, the tokens parse, and
/// none of the names that the file exports is declared in the importing
/// file.
pub proof fn lemma_import_succeeds_iff(
    state: StateView,
    literal: Seq<char>,
    directive: Position,
    position: Option<Position>,
    sources: Seq<SourceView>,
)
    requires
        is_valid(state, sources),
    ensures
        imported_file(state, literal, directive, position, sources) is Ok <==> ({
            let path = resolved(state.source_path, literal);
            let asked = StateView {
                links: recorded(state.links, state.source_path, path),
                ..state
            };
            &&& !is_circular(state.links, state.source_path, path)
            &&& source_at(sources, path) matches Some(Ok(code))
            &&& tokenized(code) matches Ok(tokens)
            &&& parsed_unit(
                entered(asked, directive, path, code, tokens),
                sources,
                Seq::empty(),
            ) matches UnitOutcome::Parsed(end, _)
            &&& forall|i: int|
                0 <= i < end.memory.exports.len() ==> !declares(
                    state.memory.functions,
                    export_name(#[trigger] end.memory.exports[i]),
                )
        }),
{
    let path = resolved(state.source_path, literal);
    let asked = StateView { links: recorded(state.links, state.source_path, path), ..state };
    lemma_source_index(sources, path);
    if !is_circular(state.links, state.source_path, path) {
        if let Some(Ok(code)) = source_at(sources, path) {
            assert(import_resolution(state, literal, position, sources) == Ok::<
                (Seq<char>, Seq<char>, StateView),
                (StateView, HaltView),
            >((path, code, asked)));
            lemma_accepted_is_fresh(state.trace, state.source_path, state.links, path);
            lemma_within_enters(asked, directive, path, sources);
            if let Ok(tokens) = tokenized(code) {
                let inside = entered(asked, directive, path, code, tokens);
                lemma_unit_keeps_memory(inside, sources, Seq::empty());
                if let UnitOutcome::Parsed(end, _) = parsed_unit(inside, sources, Seq::empty()) {
                    lemma_exports_distinct(end.memory.functions);
                    lemma_merged_distinct(state.memory.functions, end.memory.exports);
                }
            }
        }
    }
}

/// Whether the compilation of `code` arrives at the state `mid` with the
/// statements `done` read: from there the parse goes on as it does from
/// the start. It does so at the start itself, and behind every statement
/// that was read.
pub open spec fn arrives(
    code: Seq<char>,
    path: Option<Seq<char>>,
    sources: Seq<SourceView>,
    mid: StateView,
    done: Seq<StatementView>,
) -> bool {
    tokenized(code) matches Ok(tokens) && mid.tokens == tokens && parsed_unit(
        initial_state(tokens, path, Some(code)),
        sources,
        Seq::empty(),
    ) == parsed_unit(mid, sources, done)
}

/// How a compilation ends that stops for `halt`.
pub open spec fn halted(halt: HaltView) -> OutcomeView {
    match halt {
        HaltView::Failed(error) => OutcomeView::Failed(error),
        HaltView::Needs(file) => OutcomeView::Needs(file),
    }
}

/// The state behind the import directive at the cursor of `mid`.
pub open spec fn behind_directive(mid: StateView) -> StateView {
    StateView { cursor: mid.cursor + 4, ..mid }
}

/// Where the import directive at the cursor of `mid` stands.
pub open spec fn directive_at(mid: StateView) -> Position {
    Position { row: mid.tokens[mid.cursor].row, col: mid.tokens[mid.cursor].col }
}

/// Whether the file being compiled ends in an import directive at which
/// the compilation arrives in the state `mid`.
pub open spec fn ends_in_import(
    code: Seq<char>,
    path: Option<Seq<char>>,
    sources: Seq<SourceView>,
    mid: StateView,
    done: Seq<StatementView>,
) -> bool {
    &&& arrives(code, path, sources, mid, done)
    &&& is_valid(mid, sources)
    &&& 0 <= mid.cursor
    &&& mid.cursor + 4 == mid.tokens.len()
    &&& import_directive(mid.tokens, mid.cursor) is Ok
}

/// Every compilation arrives at its start.
pub proof fn lemma_arrives_at_start(code: Seq<char>, path: Option<Seq<char>>, sources: Seq<SourceView>)
    requires
        tokenized(code) is Ok,
    ensures
        arrives(
            code,
            path,
            sources,
            initial_state(tokens_of(code), path, Some(code)),
            Seq::empty(),
        ),
        is_valid(initial_state(tokens_of(code), path, Some(code)), sources),
{
}

/// The tokens of a text that splits into tokens.
pub open spec fn tokens_of(code: Seq<char>) -> Seq<TokenView> {
    tokenized(code)->Ok_0
}

/// A compilation of a file that ends in an import directive ends as the
/// import does: with shell text if the import succeeds, and with the
/// failure or the request of the import if it does not.
pub proof fn lemma_compile_ending_in_import(
    code: Seq<char>,
    path: Option<Seq<char>>,
    sources: Seq<SourceView>,
    mid: StateView,
    done: Seq<StatementView>,
)
    requires
        ends_in_import(code, path, sources, mid, done),
    ensures
        match imported_file(
            behind_directive(mid),
            import_directive(mid.tokens, mid.cursor)->Ok_0,
            directive_at(mid),
            position_at(mid.tokens, mid.cursor + 3),
            sources,
        ) {
            Ok(_) => compiled(code, path, sources) is Done,
            Err((_, halt)) => compiled(code, path, sources) == halted(halt),
        },
{
    let tokens = mid.tokens;
    let cursor = mid.cursor;
    assert(holds(tokens, cursor, "import"@));
    let literal = import_directive(tokens, cursor)->Ok_0;
    if let Ok((next, block)) = imported_file(
        behind_directive(mid),
        literal,
        directive_at(mid),
        position_at(tokens, cursor + 3),
        sources,
    ) {
        let last = StateView { tokens, cursor: cursor + 4, trace: mid.trace, ..next };
        let all = done.push(StatementView::Import { path: literal, block });
        assert(parsed_unit(last, sources, all) == UnitOutcome::Parsed(last, all));
    }
}

/// A whole compilation of a file that ends in an import directive
/// succeeds if and only if the import closes no circle, the imported
/// file is at hand and was read, its text splits into tokens, the tokens
/// parse, and none of the names that it exports is declared in the
/// importing file.
pub proof fn lemma_compile_succeeds_iff(
    code: Seq<char>,
    path: Option<Seq<char>>,
    sources: Seq<SourceView>,
    mid: StateView,
    done: Seq<StatementView>,
)
    requires
        ends_in_import(code, path, sources, mid, done),
    ensures
        compiled(code, path, sources) is Done <==> ({
            let literal = import_directive(mid.tokens, mid.cursor)->Ok_0;
            let target = resolved(mid.source_path, literal);
            let asked = StateView {
                links: recorded(mid.links, mid.source_path, target),
                ..behind_directive(mid)
            };
            &&& !is_circular(mid.links, mid.source_path, target)
            &&& source_at(sources, target) matches Some(Ok(text))
            &&& tokenized(text) matches Ok(tokens)
            &&& parsed_unit(
                entered(asked, directive_at(mid), target, text, tokens),
                sources,
                Seq::empty(),
            ) matches UnitOutcome::Parsed(end, _)
            &&& forall|i: int|
                0 <= i < end.memory.exports.len() ==> !declares(
                    mid.memory.functions,
                    export_name(#[trigger] end.memory.exports[i]),
                )
        }),
{
    let literal = import_directive(mid.tokens, mid.cursor)->Ok_0;
    lemma_compile_ending_in_import(code, path, sources, mid, done);
    lemma_import_succeeds_iff(
        behind_directive(mid),
        literal,
        directive_at(mid),
        position_at(mid.tokens, mid.cursor + 3),
        sources,
    );
}

/// A whole compilation fails with the redefinition error, and gives no
/// shell text, where the file ends in an import of a file that parses
/// and exports a name that the importing file has declared.
pub proof fn lemma_compile_redefinition(
    code: Seq<char>,
    path: Option<Seq<char>>,
    sources: Seq<SourceView>,
    mid: StateView,
    done: Seq<StatementView>,
    text: Seq<char>,
    end: StateView,
    i: int,
)
    requires
        ends_in_import(code, path, sources, mid, done),
        ({
            let literal = import_directive(mid.tokens, mid.cursor)->Ok_0;
            let target = resolved(mid.source_path, literal);
            let asked = StateView {
                links: recorded(mid.links, mid.source_path, target),
                ..behind_directive(mid)
            };
            &&& !is_circular(mid.links, mid.source_path, target)
            &&& source_at(sources, target) == Some(Ok::<Seq<char>, Seq<char>>(text))
            &&& tokenized(text) matches Ok(tokens)
            &&& parsed_unit(
                entered(asked, directive_at(mid), target, text, tokens),
                sources,
                Seq::empty(),
            ) matches UnitOutcome::Parsed(found, _)
            &&& found == end
        }),
        0 <= i < end.memory.exports.len(),
        declares(mid.memory.functions, export_name(end.memory.exports[i])),
    ensures
        compiled(code, path, sources) matches OutcomeView::Failed(error) && error.fault.kind
            == ErrorKind::Redefinition,
{
    let literal = import_directive(mid.tokens, mid.cursor)->Ok_0;
    let target = resolved(mid.source_path, literal);
    let after = behind_directive(mid);
    let asked = StateView { links: recorded(mid.links, mid.source_path, target), ..after };
    let tokens = tokenized(text)->Ok_0;
    let inside = entered(asked, directive_at(mid), target, text, tokens);
    lemma_compile_ending_in_import(code, path, sources, mid, done);
    lemma_source_index(sources, target);
    lemma_accepted_is_fresh(mid.trace, mid.source_path, mid.links, target);
    lemma_within_enters(asked, directive_at(mid), target, sources);
    let back = StateView { memory: asked.memory, links: end.links, shell: end.shell, ..inside };
    lemma_taken_name_is_redefinition(back, end.memory.exports, i);
    assert(import_resolution(after, literal, position_at(mid.tokens, mid.cursor + 3), sources)
        == Ok::<(Seq<char>, Seq<char>, StateView), (StateView, HaltView)>((target, text, asked)));
}

/// A compilation that has arrived before a command or a call arrives
/// behind it, and the state stays valid.
pub proof fn lemma_arrives_behind_simple(
    code: Seq<char>,
    path: Option<Seq<char>>,
    sources: Seq<SourceView>,
    mid: StateView,
    done: Seq<StatementView>,
)
    requires
        arrives(code, path, sources, mid, done),
        is_valid(mid, sources),
        0 <= mid.cursor < mid.tokens.len(),
        !holds(mid.tokens, mid.cursor, "import"@),
        !holds(mid.tokens, mid.cursor, "pub"@),
        !holds(mid.tokens, mid.cursor, "fun"@),
        parsed_simple(mid.tokens, mid.cursor, mid.memory.functions) is Ok,
    ensures
        ({
            let (statement, next) = parsed_simple(
                mid.tokens,
                mid.cursor,
                mid.memory.functions,
            )->Ok_0;
            &&& arrives(code, path, sources, StateView { cursor: next, ..mid }, done.push(statement))
            &&& is_valid(StateView { cursor: next, ..mid }, sources)
        }),
{
}

/// A compilation that has arrived before a function declaration whose
/// name is free in the shell text arrives behind it with the function
/// declared, and the state stays valid.
pub proof fn lemma_arrives_behind_function(
    code: Seq<char>,
    path: Option<Seq<char>>,
    sources: Seq<SourceView>,
    mid: StateView,
    done: Seq<StatementView>,
)
    requires
        arrives(code, path, sources, mid, done),
        is_valid(mid, sources),
        0 <= mid.cursor < mid.tokens.len(),
        !holds(mid.tokens, mid.cursor, "import"@),
        holds(mid.tokens, mid.cursor, "pub"@) || holds(mid.tokens, mid.cursor, "fun"@),
        parsed_function(mid.tokens, mid.cursor, mid.memory.functions) matches Ok((decl, body, _))
            && !clashes(mid.shell, decl.name, translated_block(body, None)),
    ensures
        ({
            let (decl, body, next) = parsed_function(
                mid.tokens,
                mid.cursor,
                mid.memory.functions,
            )->Ok_0;
            let behind = StateView {
                cursor: next,
                memory: declared(mid.memory, decl),
                shell: mid.shell.push((decl.name, translated_block(body, None))),
                ..mid
            };
            &&& arrives(
                code,
                path,
                sources,
                behind,
                done.push(StatementView::Function { name: decl.name, body }),
            )
            &&& is_valid(behind, sources)
            &&& declares(behind.memory.functions, decl.name)
        }),
{
    let (decl, body, next) = parsed_function(mid.tokens, mid.cursor, mid.memory.functions)->Ok_0;
    lemma_declared_keeps_order(mid.memory, decl);
    let after = mid.memory.functions.push(decl);
    assert(after[mid.memory.functions.len() as int].name == decl.name);
}

/// A whole compilation of a file that ends in an import of itself fails
/// with the circular-import error.
pub proof fn lemma_compile_self_import(
    code: Seq<char>,
    path: Option<Seq<char>>,
    sources: Seq<SourceView>,
    mid: StateView,
    done: Seq<StatementView>,
)
    requires
        ends_in_import(code, path, sources, mid, done),
        mid.source_path == Some(
            resolved(mid.source_path, import_directive(mid.tokens, mid.cursor)->Ok_0),
        ),
    ensures
        compiled(code, path, sources) matches OutcomeView::Failed(error) && error.fault.kind
            == ErrorKind::CircularImport,
{
    let literal = import_directive(mid.tokens, mid.cursor)->Ok_0;
    lemma_compile_ending_in_import(code, path, sources, mid, done);
    lemma_self_import_fails(behind_directive(mid), literal, position_at(mid.tokens, mid.cursor + 3));
}

/// What an import brings: the symbol table of the importing file grows
/// by the public declarations of the imported file, each as a private
/// one, and by nothing else; its own exports stay as they are. A
/// function that the imported file keeps private is not in scope
/// afterwards unless the importing file declared the name itself.
pub proof fn lemma_import_brings_exports(
    state: StateView,
    directive: Position,
    path: Seq<char>,
    code: Seq<char>,
    tokens: Seq<TokenView>,
    sources: Seq<SourceView>,
    name: Seq<char>,
)
    requires
        import_entered(state, directive, path, code, tokens, sources) is Ok,
    ensures
        ({
            let next = import_entered(state, directive, path, code, tokens, sources)->Ok_0.0;
            let inside = entered(state, directive, path, code, tokens);
            &&& parsed_unit(inside, sources, Seq::empty()) matches UnitOutcome::Parsed(end, _)
            &&& end.memory.exports == public_units(end.memory.functions)
            &&& next.memory.functions == state.memory.functions + end.memory.exports.map_values(
                |u: ExportUnitView| imported_decl(u),
            )
            &&& next.memory.exports == state.memory.exports
            &&& declares(next.memory.functions, name) <==> (declares(state.memory.functions, name)
                || exists|i: int|
                0 <= i < end.memory.exports.len() && export_name(#[trigger] end.memory.exports[i])
                    == name)
        }),
{
    let inside = entered(state, directive, path, code, tokens);
    lemma_unit_keeps_memory(inside, sources, Seq::empty());
    if let UnitOutcome::Parsed(end, _) = parsed_unit(inside, sources, Seq::empty()) {
        let back = StateView { memory: state.memory, links: end.links, shell: end.shell, ..inside };
        lemma_merged_ok(state.memory.functions, end.memory.exports);
        lemma_imported_scope(back, end.memory.exports, name);
    }
}

/// An imported text that does not split into tokens fails the import
/// with the lex error, reported against the imported file with the site
/// of the directive on top of the trace, and the state stays as it was:
/// nothing is declared.
pub proof fn lemma_import_of_unlexable(
    state: StateView,
    directive: Position,
    path: Seq<char>,
    code: Seq<char>,
    sources: Seq<SourceView>,
)
    requires
        tokenized(code) is Err,
    ensures
        import_handled(state, directive, path, code, sources) matches Err(
            (end, HaltView::Failed(error)),
        ) && end == state && error.fault == lex_fault(tokenized(code)->Err_0) && error.fault.kind
            == ErrorKind::Lex && error.path == Some(path) && error.trace == state.trace.push(
            TraceFrameView { path: state.source_path, position: directive },
        ),
{
}

/// An imported file whose parse stops hands the failure or the request
/// on as it is, and the importing file is as before the import but for
/// the ledger and the list of shell functions: nothing is declared.
pub proof fn lemma_import_hands_on(
    state: StateView,
    directive: Position,
    path: Seq<char>,
    code: Seq<char>,
    tokens: Seq<TokenView>,
    sources: Seq<SourceView>,
)
    requires
        state.trace.len() < sources.len(),
        parsed_unit(
            entered(state, directive, path, code, tokens),
            sources,
            Seq::empty(),
        ) is Halted,
    ensures
        ({
            let stopped = parsed_unit(
                entered(state, directive, path, code, tokens),
                sources,
                Seq::empty(),
            );
            import_entered(state, directive, path, code, tokens, sources) == Err::<
                (StateView, BlockView),
                (StateView, HaltView),
            >(
                (
                    StateView { links: stopped->Halted_0.links, shell: stopped->Halted_0.shell, ..state },
                    stopped->Halted_1,
                ),
            )
        }),
{
}

/// Whether all functions of one name in the shell text have one body.
pub open spec fn is_consistent(shell: Seq<(Seq<char>, Seq<char>)>) -> bool {
    forall|i: int, j: int|
        0 <= i < shell.len() && 0 <= j < shell.len() && (#[trigger] shell[i]).0 == (
        #[trigger] shell[j]).0 ==> shell[i].1 == shell[j].1
}

/// Nothing is shadowed: a parse adds to the shell text only functions
/// whose name is new or whose body is the one that the name already
/// has, in the file itself and in every file it imports.
pub proof fn lemma_unit_keeps_shell(state: StateView, sources: Seq<SourceView>, done: Seq<StatementView>)
    requires
        is_consistent(state.shell),
    ensures
        match parsed_unit(state, sources, done) {
            UnitOutcome::Parsed(end, _) => is_consistent(end.shell),
            UnitOutcome::Halted(end, _) => is_consistent(end.shell),
        },
    decreases sources.len() - state.trace.len(), state.tokens.len() - state.cursor,
{
    let tokens = state.tokens;
    let cursor = state.cursor;
    if 0 <= cursor < tokens.len() {
        if holds(tokens, cursor, "import"@) {
            if let Ok(literal) = import_directive(tokens, cursor) {
                let after = StateView { cursor: cursor + 4, ..state };
                let directive = Position { row: tokens[cursor].row, col: tokens[cursor].col };
                let position = position_at(tokens, cursor + 3);
                if let Ok((path, code, asked)) = import_resolution(after, literal, position, sources) {
                    if let Ok(inner) = tokenized(code) {
                        if asked.trace.len() < sources.len() {
                            lemma_unit_keeps_shell(
                                entered(asked, directive, path, code, inner),
                                sources,
                                Seq::empty(),
                            );
                        }
                    }
                }
                if let Ok((next, block)) = imported_file(after, literal, directive, position, sources) {
                    lemma_unit_keeps_shell(
                        StateView { tokens, cursor: cursor + 4, trace: state.trace, ..next },
                        sources,
                        done.push(StatementView::Import { path: literal, block }),
                    );
                }
            }
        } else if holds(tokens, cursor, "pub"@) || holds(tokens, cursor, "fun"@) {
            lemma_function_advances(tokens, cursor, state.memory.functions);
            if let Ok((decl, body, next)) = parsed_function(tokens, cursor, state.memory.functions) {
                let text = translated_block(body, None);
                if !clashes(state.shell, decl.name, text) {
                    let shell = state.shell.push((decl.name, text));
                    assert forall|i: int, j: int|
                        0 <= i < shell.len() && 0 <= j < shell.len() && (#[trigger] shell[i]).0 == (
                        #[trigger] shell[j]).0 implies shell[i].1 == shell[j].1 by {
                        if i < state.shell.len() {
                            assert(shell[i] == state.shell[i]);
                        }
                        if j < state.shell.len() {
                            assert(shell[j] == state.shell[j]);
                        }
                    }
                    lemma_unit_keeps_shell(
                        StateView {
                            cursor: next,
                            memory: declared(state.memory, decl),
                            shell,
                            ..state
                        },
                        sources,
                        done.push(StatementView::Function { name: decl.name, body }),
                    );
                }
            }
        } else {
            lemma_simple_advances(tokens, cursor, state.memory.functions);
            if let Ok((statement, next)) = parsed_simple(tokens, cursor, state.memory.functions) {
                lemma_unit_keeps_shell(
                    StateView { cursor: next, ..state },
                    sources,
                    done.push(statement),
                );
            }
        }
    }
}

/// A file that imports itself fails with the circular-import error.
pub proof fn lemma_self_import_fails(state: StateView, literal: Seq<char>, position: Option<Position>)
    requires
        state.source_path == Some(resolved(state.source_path, literal)),
    ensures
        path_resolution(state, literal, position) == Err::<(Seq<char>, StateView), _>(
            error_at(state, circular_fault(position)),
        ),
{
    lemma_self_import_is_circular(state.links, resolved(state.source_path, literal));
}

/// An import of a file that is on the way to the current file fails with
/// the circular-import error: every circle of imports is refused where it
/// would close.
pub proof fn lemma_import_cycle_fails(
    state: StateView,
    site: int,
    literal: Seq<char>,
    position: Option<Position>,
)
    requires
        chain_linked(state.trace, state.source_path, state.links),
        0 <= site < state.trace.len(),
        state.trace[site].path == Some(resolved(state.source_path, literal)),
    ensures
        path_resolution(state, literal, position) == Err::<(Seq<char>, StateView), _>(
            error_at(state, circular_fault(position)),
        ),
{
    assert(site_linked(state.trace, state.source_path, state.links, site));
}

/// An import whose file could not be read fails with the file-read
/// error, which names the path as the directive gives it and carries the
/// reason.
pub proof fn lemma_unreadable_import_fails(
    state: StateView,
    literal: Seq<char>,
    directive: Position,
    position: Option<Position>,
    sources: Seq<SourceView>,
    reason: Seq<char>,
)
    requires
        path_resolution(state, literal, position) matches Ok((path, _)) && source_at(
            sources,
            path,
        ) == Some(Err::<Seq<char>, Seq<char>>(reason)),
    ensures
        imported_file(state, literal, directive, position, sources) matches Err(
            (_, HaltView::Failed(error)),
        ) && error.fault == unreadable_fault(literal, reason, position) && error.fault.kind
            == ErrorKind::FileRead && error.fault.message == "Failed to read file '"@ + literal
            + "'"@,
{
}

/// Exports whose names include one that is in scope are refused with the
/// redefinition error, and the symbol table stays as it is.
pub proof fn lemma_taken_name_is_redefinition(state: StateView, exports: Seq<ExportUnitView>, i: int)
    requires
        0 <= i < exports.len(),
        declares(state.memory.functions, export_name(exports[i])),
    ensures
        exports_handled(state, exports) matches Err(error) && error.fault.kind
            == ErrorKind::Redefinition,
{
    assert(name_taken(state.memory.functions, exports, i));
    lemma_merged_err(state.memory.functions, exports);
}

/// After an import, a name is in scope exactly if it was before or is
/// the name of an export; what came in is private and is not exported
/// again.
pub proof fn lemma_imported_scope(state: StateView, exports: Seq<ExportUnitView>, name: Seq<char>)
    requires
        exports_handled(state, exports) is Ok,
    ensures
        ({
            let next = exports_handled(state, exports)->Ok_0;
            &&& declares(next.memory.functions, name) <==> (declares(state.memory.functions, name)
                || exists|i: int| 0 <= i < exports.len() && export_name(#[trigger] exports[i]) == name)
            &&& next.memory.exports == state.memory.exports
            &&& forall|j: int|
                state.memory.functions.len() <= j < next.memory.functions.len() ==> !(
                #[trigger] next.memory.functions[j]).is_public
        }),
{
    let old = state.memory.functions;
    let new = exports_handled(state, exports)->Ok_0.memory.functions;
    lemma_merged_ok(old, exports);
    let added = exports.map_values(|u: ExportUnitView| imported_decl(u));
    assert(new == old + added);
    if declares(new, name) {
        let k = choose|k: int| 0 <= k < new.len() && (#[trigger] new[k]).name == name;
        if k < old.len() {
            assert(old[k] == new[k]);
        } else {
            assert(export_name(exports[k - old.len()]) == name);
        }
    }
    if declares(old, name) {
        let k = choose|k: int| 0 <= k < old.len() && (#[trigger] old[k]).name == name;
        assert(new[k] == old[k]);
    }
    if exists|i: int| 0 <= i < exports.len() && export_name(#[trigger] exports[i]) == name {
        let i = choose|i: int| 0 <= i < exports.len() && export_name(#[trigger] exports[i]) == name;
        assert(new[old.len() + i] == imported_decl(exports[i]));
        assert(new[old.len() + i].name == name);
    }
    assert forall|j: int| old.len() <= j < new.len() implies !(#[trigger] new[j]).is_public by {
        assert(new[j] == imported_decl(exports[j - old.len()]));
    }
}

/// The directory in which `./name` lies when it is written in a file of
/// the directory `dir`: `dir` itself, spelled `.` where `dir` is empty.
pub open spec fn dotted_directory(dir: Seq<char>) -> Seq<char> {
    if dir.len() == 0 {
        seq!['.']
    } else {
        dir
    }
}

/// A file imported by its bare name lies in the directory of the
/// importing file: the resolved path has the same directory.
pub proof fn lemma_bare_import_keeps_directory(file: Seq<char>, name: Seq<char>)
    requires
        parent_len(file) is Some,
        is_component(name),
    ensures
        directory_of(resolved(Some(file), name)) == directory_of(file),
{
    lemma_directory_is_settled(file);
    lemma_directory_of_joined(directory_of(file), name);
    lemma_parent_bounds(file);
    assert(directory_of(file).subrange(0, directory_of(file).len() as int) =~= directory_of(file));
}

/// The directory of `./name` joined to a settled directory is that
/// directory, or `.` where it was empty.
pub proof fn lemma_dot_join_keeps_directory(dir: Seq<char>, name: Seq<char>)
    requires
        is_settled(dir),
        is_component(name),
    ensures
        directory_of(joined(dir, seq!['.', '/'] + name)) == dotted_directory(dir),
        is_settled(dotted_directory(dir)),
{
    let literal = seq!['.', '/'] + name;
    let dotted = joined(dir, seq!['.']);
    assert(joined(dir, literal) =~= joined(dotted, name)) by {
        assert(literal[0] == '.');
        assert(dotted.len() > 0 && dotted.last() == '.');
    }
    lemma_directory_of_joined(dotted, name);
    lemma_dot_is_trimmed(dir);
    if dir.len() == 0 {
        let dot = seq!['.'];
        assert(has_cur_dir(dot));
        assert(trimmed(dot, 1, 1) == 1);
    }
}

/// A file imported as `./name` lies in the directory of the importing
/// file, written as `.` where that directory is empty. From a path that
/// was resolved in this way the same literal resolves to the same path
/// again: the spelling does not grow, so a file that imports itself as
/// `./name` meets its own path in the ledger and is refused.
pub proof fn lemma_dot_import_settles(file: Seq<char>, name: Seq<char>)
    requires
        parent_len(file) is Some,
        is_component(name),
    ensures
        ({
            let literal = seq!['.', '/'] + name;
            let first = resolved(Some(file), literal);
            let second = resolved(Some(first), literal);
            &&& directory_of(first) == dotted_directory(directory_of(file))
            &&& directory_of(second) == directory_of(first)
            &&& resolved(Some(second), literal) == second
        }),
{
    let literal = seq!['.', '/'] + name;
    let dir = directory_of(file);
    lemma_directory_is_settled(file);
    lemma_dot_join_keeps_directory(dir, name);
    lemma_dot_join_keeps_directory(dotted_directory(dir), name);
}

} // verus!
