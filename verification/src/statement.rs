//! The statements that stand inside one file: commands, calls and function
//! declarations. Each parser reads tokens from a cursor and gives the
//! statement with the cursor behind it, or a fault and nothing else.

use vstd::prelude::*;
use crate::error::{
    redefinition_fault, syntax_fault, unknown_function_fault, Fault, FaultView, Position,
};
use crate::memory::{declares, FunctionDecl, FunctionDeclView, Memory};
use crate::syntax::{statement_views, Block, BlockView, Statement, StatementView};
use crate::token::{token_views, Token, TokenView};

verus! {

/// Whether token `i` exists and reads `word`.
pub open spec fn holds(tokens: Seq<TokenView>, i: int, word: Seq<char>) -> bool {
    0 <= i < tokens.len() && tokens[i].word == word
}

/// Where token `i` stands; `None` past the end.
pub open spec fn position_at(tokens: Seq<TokenView>, i: int) -> Option<Position> {
    if 0 <= i < tokens.len() {
        Some(Position { row: tokens[i].row, col: tokens[i].col })
    } else {
        None
    }
}

/// Whether a name may start with `c`.
pub open spec fn is_name_start(c: char) -> bool {
    ('a' <= c && c <= 'z') || ('A' <= c && c <= 'Z') || c == '_'
}

/// Whether a name may hold `c`.
pub open spec fn is_name_char(c: char) -> bool {
    is_name_start(c) || ('0' <= c && c <= '9')
}

/// Whether `word` is reserved by the grammar.
pub open spec fn is_keyword(word: Seq<char>) -> bool {
    word == "import"@ || word == "from"@ || word == "pub"@ || word == "fun"@
}

/// Whether `word` can name a function.
pub open spec fn is_name(word: Seq<char>) -> bool {
    &&& word.len() > 0
    &&& is_name_start(word[0])
    &&& forall|i: int| 0 <= i < word.len() ==> is_name_char(#[trigger] word[i])
    &&& !is_keyword(word)
}

/// Whether `word` is text between two marks `mark`.
pub open spec fn is_enclosed(word: Seq<char>, mark: char) -> bool {
    word.len() >= 2 && word[0] == mark && word.last() == mark
}

/// What stands between the first and the last character of `word`.
pub open spec fn inner(word: Seq<char>) -> Seq<char> {
    word.subrange(1, word.len() - 1)
}

/// A command or a call at token `cursor`, with the cursor behind it.
pub open spec fn parsed_simple(tokens: Seq<TokenView>, cursor: int, functions: Seq<FunctionDeclView>) -> Result<
    (StatementView, int),
    FaultView,
> {
    if !(0 <= cursor < tokens.len()) {
        Err(syntax_fault("a statement"@, None))
    } else if is_enclosed(tokens[cursor].word, '$') {
        Ok((StatementView::Command { text: inner(tokens[cursor].word) }, cursor + 1))
    } else if !is_name(tokens[cursor].word) {
        Err(syntax_fault("a statement"@, position_at(tokens, cursor)))
    } else if !holds(tokens, cursor + 1, "("@) {
        Err(syntax_fault("'('"@, position_at(tokens, cursor + 1)))
    } else if !holds(tokens, cursor + 2, ")"@) {
        Err(syntax_fault("')'"@, position_at(tokens, cursor + 2)))
    } else if !declares(functions, tokens[cursor].word) {
        Err(unknown_function_fault(tokens[cursor].word, position_at(tokens, cursor)))
    } else {
        Ok((StatementView::Call { name: tokens[cursor].word }, cursor + 3))
    }
}

/// The commands and calls from token `cursor` up to the closing brace,
/// after `done`, with the cursor behind the brace.
pub open spec fn parsed_body(
    tokens: Seq<TokenView>,
    cursor: int,
    functions: Seq<FunctionDeclView>,
    done: Seq<StatementView>,
) -> Result<(Seq<StatementView>, int), FaultView>
    decreases tokens.len() - cursor,
{
    if !(0 <= cursor < tokens.len()) {
        Err(syntax_fault("'}'"@, None))
    } else if tokens[cursor].word == "}"@ {
        Ok((done, cursor + 1))
    } else {
        match parsed_simple(tokens, cursor, functions) {
            Ok((statement, next)) => parsed_body(tokens, next, functions, done.push(statement)),
            Err(fault) => Err(fault),
        }
    }
}

/// A function declaration at token `cursor`: the declaration, the body and
/// the cursor behind the closing brace. The name must be free.
pub open spec fn parsed_function(tokens: Seq<TokenView>, cursor: int, functions: Seq<FunctionDeclView>) -> Result<
    (FunctionDeclView, BlockView, int),
    FaultView,
> {
    let is_public = holds(tokens, cursor, "pub"@);
    let at = if is_public {
        cursor + 1
    } else {
        cursor
    };
    if !holds(tokens, at, "fun"@) {
        Err(syntax_fault("'fun'"@, position_at(tokens, at)))
    } else if !(at + 1 < tokens.len() && is_name(tokens[at + 1].word)) {
        Err(syntax_fault("a function name"@, position_at(tokens, at + 1)))
    } else if !holds(tokens, at + 2, "("@) {
        Err(syntax_fault("'('"@, position_at(tokens, at + 2)))
    } else if !holds(tokens, at + 3, ")"@) {
        Err(syntax_fault("')'"@, position_at(tokens, at + 3)))
    } else if !holds(tokens, at + 4, "{"@) {
        Err(syntax_fault("'{'"@, position_at(tokens, at + 4)))
    } else {
        match parsed_body(tokens, at + 5, functions, Seq::empty()) {
            Err(fault) => Err(fault),
            Ok((statements, next)) => if declares(functions, tokens[at + 1].word) {
                Err(redefinition_fault(tokens[at + 1].word, position_at(tokens, at + 1)))
            } else {
                Ok(
                    (
                        FunctionDeclView {
                            name: tokens[at + 1].word,
                            is_public,
                            position: Position { row: tokens[at + 1].row, col: tokens[at + 1].col },
                        },
                        BlockView { statements, scopeless: false },
                        next,
                    ),
                )
            },
        }
    }
}

/// A statement is at least one token long.
pub proof fn lemma_simple_advances(tokens: Seq<TokenView>, cursor: int, functions: Seq<FunctionDeclView>)
    ensures
        parsed_simple(tokens, cursor, functions) matches Ok((_, next)) ==> cursor < next
            <= tokens.len(),
{
}

/// A body ends behind its start and within the tokens.
pub proof fn lemma_body_advances(
    tokens: Seq<TokenView>,
    cursor: int,
    functions: Seq<FunctionDeclView>,
    done: Seq<StatementView>,
)
    ensures
        parsed_body(tokens, cursor, functions, done) matches Ok((_, next)) ==> cursor < next
            <= tokens.len(),
    decreases tokens.len() - cursor,
{
    if 0 <= cursor < tokens.len() && tokens[cursor].word != "}"@ {
        if let Ok((statement, next)) = parsed_simple(tokens, cursor, functions) {
            lemma_body_advances(tokens, next, functions, done.push(statement));
        }
    }
}

/// A function declaration ends behind its start and within the tokens.
pub proof fn lemma_function_advances(
    tokens: Seq<TokenView>,
    cursor: int,
    functions: Seq<FunctionDeclView>,
)
    ensures
        parsed_function(tokens, cursor, functions) matches Ok((_, _, next)) ==> cursor < next
            <= tokens.len(),
{
    let at = if holds(tokens, cursor, "pub"@) {
        cursor + 1
    } else {
        cursor
    };
    lemma_body_advances(tokens, at + 5, functions, Seq::empty());
}

/// Whether token `i` exists and reads `word`.
pub fn token_is(tokens: &Vec<Token>, i: usize, word: &str) -> (b: bool)
    ensures
        b == holds(token_views(tokens@), i as int, word@),
{
    i < tokens.len() && tokens[i].word == String::from_str(word)
}

/// Where token `i` stands; `None` past the end.
pub fn token_position(tokens: &Vec<Token>, i: usize) -> (position: Option<Position>)
    ensures
        position == position_at(token_views(tokens@), i as int),
{
    if i < tokens.len() {
        Some(Position { row: tokens[i].row, col: tokens[i].col })
    } else {
        None
    }
}

/// Whether a name may start with `c`.
pub fn check_name_start(c: char) -> (b: bool)
    ensures
        b == is_name_start(c),
{
    ('a' <= c && c <= 'z') || ('A' <= c && c <= 'Z') || c == '_'
}

/// Whether `word` is reserved by the grammar.
pub fn check_keyword(word: &String) -> (b: bool)
    ensures
        b == is_keyword(word@),
{
    *word == String::from_str("import") || *word == String::from_str("from") || *word
        == String::from_str("pub") || *word == String::from_str("fun")
}

/// Whether `word` can name a function.
pub fn check_name(word: &String) -> (b: bool)
    ensures
        b == is_name(word@),
{
    let text = word.as_str();
    let n: usize = text.unicode_len();
    if n == 0 || !check_name_start(text.get_char(0)) {
        return false;
    }
    let mut i: usize = 0;
    while i < n
        invariant
            i <= n,
            n == word@.len(),
            text@ == word@,
            forall|j: int| 0 <= j < i ==> is_name_char(#[trigger] word@[j]),
        decreases n - i,
    {
        let c = text.get_char(i);
        if !(check_name_start(c) || ('0' <= c && c <= '9')) {
            return false;
        }
        i = i + 1;
    }
    !check_keyword(word)
}

/// Whether `word` is text between two marks `mark`.
pub fn check_enclosed(word: &String, mark: char) -> (b: bool)
    ensures
        b == is_enclosed(word@, mark),
{
    let text = word.as_str();
    let n: usize = text.unicode_len();
    n >= 2 && text.get_char(0) == mark && text.get_char(n - 1) == mark
}

/// What stands between the first and the last character of `word`.
pub fn take_inner(word: &String) -> (text: String)
    requires
        word@.len() >= 2,
    ensures
        text@ == inner(word@),
{
    let n: usize = word.as_str().unicode_len();
    String::from_str(word.as_str().substring_char(1, n - 1))
}

/// Parses a command or a call at `cursor`.
pub fn parse_simple(tokens: &Vec<Token>, cursor: usize, memory: &Memory) -> (r: Result<
    (Statement, usize),
    Fault,
>)
    ensures
        match r {
            Ok((statement, next)) => parsed_simple(
                token_views(tokens@),
                cursor as int,
                memory@.functions,
            ) == Ok::<(StatementView, int), FaultView>((statement@, next as int)),
            Err(fault) => parsed_simple(token_views(tokens@), cursor as int, memory@.functions)
                == Err::<(StatementView, int), FaultView>(fault@),
        },
{
    if cursor >= tokens.len() {
        return Err(Fault::syntax("a statement", None));
    }
    let word = &tokens[cursor].word;
    assert(token_views(tokens@)[cursor as int].word == word@);
    if check_enclosed(word, '$') {
        return Ok((Statement::Command { text: take_inner(word) }, cursor + 1));
    }
    if !check_name(word) {
        return Err(Fault::syntax("a statement", token_position(tokens, cursor)));
    }
    if !token_is(tokens, cursor + 1, "(") {
        return Err(Fault::syntax("'('", token_position(tokens, cursor + 1)));
    }
    if !token_is(tokens, cursor + 2, ")") {
        return Err(Fault::syntax("')'", token_position(tokens, cursor + 2)));
    }
    if !memory.has_function(word) {
        return Err(Fault::unknown_function(word.as_str(), token_position(tokens, cursor)));
    }
    Ok((Statement::Call { name: word.clone() }, cursor + 3))
}

/// Parses the commands and calls of a function body from `cursor` up to
/// and including the closing brace.
pub fn parse_body(tokens: &Vec<Token>, cursor: usize, memory: &Memory) -> (r: Result<
    (Vec<Statement>, usize),
    Fault,
>)
    ensures
        match r {
            Ok((statements, next)) => parsed_body(
                token_views(tokens@),
                cursor as int,
                memory@.functions,
                Seq::empty(),
            ) == Ok::<(Seq<StatementView>, int), FaultView>(
                (statement_views(statements@), next as int),
            ),
            Err(fault) => parsed_body(
                token_views(tokens@),
                cursor as int,
                memory@.functions,
                Seq::empty(),
            ) == Err::<(Seq<StatementView>, int), FaultView>(fault@),
        },
{
    let ghost views = token_views(tokens@);
    let ghost goal = parsed_body(views, cursor as int, memory@.functions, Seq::empty());
    let mut statements: Vec<Statement> = Vec::new();
    let mut at: usize = cursor;
    assert(statement_views(statements@) =~= Seq::<StatementView>::empty());
    loop
        invariant
            views == token_views(tokens@),
            goal == parsed_body(views, cursor as int, memory@.functions, Seq::empty()),
            goal == parsed_body(views, at as int, memory@.functions, statement_views(statements@)),
        decreases tokens.len() - at,
    {
        if at >= tokens.len() {
            return Err(Fault::syntax("'}'", None));
        }
        if token_is(tokens, at, "}") {
            return Ok((statements, at + 1));
        }
        proof {
            lemma_simple_advances(views, at as int, memory@.functions);
        }
        match parse_simple(tokens, at, memory) {
            Ok((statement, next)) => {
                let ghost before = statement_views(statements@);
                statements.push(statement);
                assert(statement_views(statements@) =~= before.push(statement@));
                at = next;
            },
            Err(fault) => {
                return Err(fault);
            },
        }
    }
}

/// Parses a function declaration at `cursor`, which holds `pub` or `fun`.
/// The symbol table is read, not changed.
pub fn parse_function(tokens: &Vec<Token>, cursor: usize, memory: &Memory) -> (r: Result<
    (FunctionDecl, Block, usize),
    Fault,
>)
    requires
        cursor < tokens@.len(),
    ensures
        match r {
            Ok((decl, body, next)) => parsed_function(
                token_views(tokens@),
                cursor as int,
                memory@.functions,
            ) == Ok::<(FunctionDeclView, BlockView, int), FaultView>((decl@, body@, next as int)),
            Err(fault) => parsed_function(token_views(tokens@), cursor as int, memory@.functions)
                == Err::<(FunctionDeclView, BlockView, int), FaultView>(fault@),
        },
{
    let ghost views = token_views(tokens@);
    let n: usize = tokens.len();
    let is_public = token_is(tokens, cursor, "pub");
    let at: usize = if is_public {
        cursor + 1
    } else {
        cursor
    };
    if !token_is(tokens, at, "fun") {
        return Err(Fault::syntax("'fun'", token_position(tokens, at)));
    }
    if !(at + 1 < n && check_name(&tokens[at + 1].word)) {
        return Err(Fault::syntax("a function name", token_position(tokens, at + 1)));
    }
    let name = &tokens[at + 1].word;
    assert(views[at + 1].word == name@);
    if !token_is(tokens, at + 2, "(") {
        return Err(Fault::syntax("'('", token_position(tokens, at + 2)));
    }
    if !token_is(tokens, at + 3, ")") {
        return Err(Fault::syntax("')'", token_position(tokens, at + 3)));
    }
    if !token_is(tokens, at + 4, "{") {
        return Err(Fault::syntax("'{'", token_position(tokens, at + 4)));
    }
    match parse_body(tokens, at + 5, memory) {
        Err(fault) => Err(fault),
        Ok((statements, next)) => {
            if memory.has_function(name) {
                Err(Fault::redefinition(name.as_str(), token_position(tokens, at + 1)))
            } else {
                let decl = FunctionDecl {
                    name: name.clone(),
                    is_public,
                    position: Position { row: tokens[at + 1].row, col: tokens[at + 1].col },
                };
                Ok((decl, Block::new(statements, false), next))
            }
        },
    }
}

} // verus!
