//! Tokens and the tokenizer.

use heraclitus_compiler::prelude::{Compiler, LexerErrorType, Region, Rules};
use vstd::prelude::*;
use crate::text::string_views;

verus! {

/// One word of source text with the place where it starts.
#[derive(Debug, Clone)]
pub struct Token {
    pub word: String,
    pub row: usize,
    pub col: usize,
}

/// The mathematical value of a [`Token`].
pub ghost struct TokenView {
    pub word: Seq<char>,
    pub row: usize,
    pub col: usize,
}

impl View for Token {
    type V = TokenView;

    open spec fn view(&self) -> TokenView {
        TokenView { word: self.word@, row: self.row, col: self.col }
    }
}

/// Why the tokenizer gave up.
#[derive(Debug, Clone, Copy, PartialEq, Eq, Structural)]
pub enum LexFault {
    /// A delimited region that may not span lines met a line break.
    Multiline,
    /// A delimited region was still open at the end of the text.
    Unclosed,
}

/// A tokenizer failure: what went wrong, in which region, and where.
#[derive(Debug, Clone)]
pub struct LexFailure {
    pub fault: LexFault,
    pub region: String,
    pub row: usize,
    pub col: usize,
}

/// The mathematical value of a [`LexFailure`].
pub ghost struct LexFailureView {
    pub fault: LexFault,
    pub region: Seq<char>,
    pub row: usize,
    pub col: usize,
}

impl View for LexFailure {
    type V = LexFailureView;

    open spec fn view(&self) -> LexFailureView {
        LexFailureView { fault: self.fault, region: self.region@, row: self.row, col: self.col }
    }
}

/// The views of a sequence of tokens, in order.
pub open spec fn token_views(tokens: Seq<Token>) -> Seq<TokenView> {
    tokens.map_values(|t: Token| t@)
}

/// The view of a tokenizer result.
pub open spec fn lex_view(r: Result<Vec<Token>, LexFailure>) -> Result<Seq<TokenView>, LexFailureView> {
    match r {
        Ok(tokens) => Ok(token_views(tokens@)),
        Err(failure) => Err(failure@),
    }
}

/// What the outside tokenizer makes of `code` when `symbols` are the
/// characters that stand alone and each of `delimiters` opens and closes a
/// region that is kept as one token.
pub uninterp spec fn lexed(symbols: Seq<char>, delimiters: Seq<Seq<char>>, code: Seq<char>) -> Result<Seq<TokenView>, LexFailureView>;

/// Runs `heraclitus_compiler`'s `Compiler::tokenize` on `code`, with rules
/// made of `symbols`, no compound symbols, and one region per delimiter that
/// begins and ends with it and is named after it. The tokens are handed
/// on word by word with their positions, a failure with its kind, region
/// and position. The result is a function of the three arguments alone
/// and is known only by the name [`lexed`]: nothing is proved of it. With
/// rules of this shape the tokenizer returns for every text.
#[verifier::external_body]
pub(crate) fn run_lexer(symbols: Vec<char>, delimiters: &Vec<String>, code: &str) -> (out: Result<Vec<Token>, LexFailure>)
    ensures
        lex_view(out) == lexed(symbols@, string_views(delimiters@), code@),
{
    let regions = delimiters.iter().map(|d| Region::new(d, d, d, d, vec![], None)).collect();
    let mut compiler = Compiler::new("", Rules::new(symbols, vec![], Region::new_global(regions)));
    compiler.load(code);
    match compiler.tokenize() {
        Ok(tokens) => Ok(tokens.into_iter().map(|t| Token { word: t.word, row: t.pos.0, col: t.pos.1 }).collect()),
        Err((kind, at)) => {
            let fault = match kind {
                LexerErrorType::Singleline => LexFault::Multiline,
                LexerErrorType::Unclosed => LexFault::Unclosed,
            };
            Err(LexFailure { fault, region: at.data.unwrap_or_default(), row: at.row, col: at.col })
        },
    }
}

/// The characters that always stand alone as a token.
pub open spec fn symbols() -> Seq<char> {
    seq!['(', ')', '{', '}', '*']
}

/// The marks that enclose text kept as one token: `"` for a string and `$`
/// for a command.
pub open spec fn delimiters() -> Seq<Seq<char>> {
    seq![seq!['"'], seq!['$']]
}

/// The tokens of `code` under the rules of this language.
pub open spec fn tokenized(code: Seq<char>) -> Result<Seq<TokenView>, LexFailureView> {
    lexed(symbols(), delimiters(), code)
}

/// Splits `code` into tokens.
pub fn tokenize(code: &str) -> (out: Result<Vec<Token>, LexFailure>)
    ensures
        lex_view(out) == tokenized(code@),
{
    let mut marks: Vec<char> = Vec::new();
    marks.push('(');
    marks.push(')');
    marks.push('{');
    marks.push('}');
    marks.push('*');
    assert(marks@ =~= symbols());
    let mut regions: Vec<String> = Vec::new();
    regions.push(String::from_str("\""));
    regions.push(String::from_str("$"));
    proof {
        reveal_strlit("\"");
        reveal_strlit("$");
        assert("\""@ =~= seq!['"']);
        assert("$"@ =~= seq!['$']);
        assert(string_views(regions@) =~= delimiters());
    }
    run_lexer(marks, &regions, code)
}

} // verus!
