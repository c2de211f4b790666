use vstd::prelude::*;
use crate::token::{Position, Token, TokenType, is_quoted};

verus! {

/// A syntax error: the token kinds that would have been accepted, the
/// kind found instead, and where.
#[derive(Debug)]
pub struct ParseError {
    pub expected: Vec<TokenType>,
    pub found: TokenType,
    pub position: Position,
}

/// What the parser needs of its input: a non-empty token list that ends
/// with the end-of-file token, whose string tokens open with a quote.
pub open spec fn tokens_ok(toks: Seq<Token>) -> bool {
    &&& toks.len() > 0
    &&& toks.last().kind == TokenType::Eof
    &&& forall|i: int| 0 <= i < toks.len() && #[trigger] toks[i].kind == TokenType::String ==> is_quoted(toks[i].text@)
}

/// Whether `p` is a position inside the token list at or after `pos`.
pub open spec fn advanced(toks: Seq<Token>, pos: int, p: int) -> bool {
    pos <= p < toks.len()
}

/// The kind of the token at `pos`.
pub fn peek(toks: &Vec<Token>, pos: usize) -> (r: TokenType)
    requires
        pos < toks@.len(),
    ensures
        r == toks@[pos as int].kind,
{
    toks[pos].kind
}

/// The error for the token at `pos` when one of `expected` was wanted.
pub fn error_at(toks: &Vec<Token>, pos: usize, expected: Vec<TokenType>) -> (r: ParseError)
    requires
        pos < toks@.len(),
    ensures
        r.found == toks@[pos as int].kind,
        r.position == toks@[pos as int].position,
        r.expected@ == expected@,
{
    ParseError { expected, found: toks[pos].kind, position: toks[pos].position }
}

/// The error for the token at `pos` when `kind` was wanted.
pub fn error_one(toks: &Vec<Token>, pos: usize, kind: TokenType) -> (r: ParseError)
    requires
        pos < toks@.len(),
    ensures
        r.found == toks@[pos as int].kind,
        r.position == toks@[pos as int].position,
        r.expected@ == seq![kind],
{
    let mut e: Vec<TokenType> = Vec::new();
    e.push(kind);
    error_at(toks, pos, e)
}

/// Consumes one token of kind `kind` at `pos`.
pub fn expect(toks: &Vec<Token>, pos: usize, kind: TokenType) -> (r: Result<usize, ParseError>)
    requires
        tokens_ok(toks@),
        pos < toks@.len(),
        kind != TokenType::Eof,
    ensures
        r matches Ok(p) ==> p == pos + 1 && p < toks@.len() && toks@[pos as int].kind == kind,
        r matches Err(e) ==> toks@[pos as int].kind != kind && e.found == toks@[pos as int].kind
            && e.expected@ == seq![kind],
{
    let n = toks.len();
    if toks[pos].kind == kind {
        assert(pos != n - 1);
        Ok(pos + 1)
    } else {
        Err(error_one(toks, pos, kind))
    }
}

/// The text of the token at `pos`.
pub fn text_at(toks: &Vec<Token>, pos: usize) -> (r: String)
    requires
        pos < toks@.len(),
    ensures
        r@ == toks@[pos as int].text@,
{
    toks[pos].text.clone()
}

/// The value of the string-literal token at `pos`.
pub fn string_at(toks: &Vec<Token>, pos: usize) -> (r: String)
    requires
        tokens_ok(toks@),
        pos < toks@.len(),
        toks@[pos as int].kind == TokenType::String,
    ensures
        r@ == crate::token::unescape_spec(
            toks@[pos as int].text@.subrange(1, toks@[pos as int].text@.len() as int),
            toks@[pos as int].text@[0],
        ),
{
    toks[pos].unescape()
}

} // verus!
