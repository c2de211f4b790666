use vstd::prelude::*;
use crate::grammar::{ParseError, advanced, error_at, expect, peek, string_at, text_at, tokens_ok};
use crate::html_ast::{Comparator, Expression, Fmt, Link, LinkDest, Param, Statement};
use crate::util::{chars_of, join, string_from};
use crate::token::{Token, TokenType as Tok};

verus! {

/// A parse result: the value and the position after it.
pub type PResult<T> = Result<(T, usize), ParseError>;

/// The token kinds that start an atom.
pub open spec fn starts_atom(k: Tok) -> bool {
    k == Tok::Ident || k == Tok::New || k == Tok::String || k == Tok::Number || k == Tok::OpenBrace
        || k == Tok::OpenBracket || k == Tok::OpenParen
}

/// The comparison operator of a token kind.
pub open spec fn comparator_of(k: Tok) -> Option<Comparator> {
    match k {
        Tok::Eq => Some(Comparator::Eq),
        Tok::NotEq => Some(Comparator::NotEq),
        Tok::Less => Some(Comparator::Less),
        Tok::LessEq => Some(Comparator::LessEq),
        Tok::Greater => Some(Comparator::Greater),
        Tok::GreaterEq => Some(Comparator::GreaterEq),
        _ => None,
    }
}

fn comparator_exec(k: Tok) -> (r: Option<Comparator>)
    ensures
        r == comparator_of(k),
{
    match k {
        Tok::Eq => Some(Comparator::Eq),
        Tok::NotEq => Some(Comparator::NotEq),
        Tok::Less => Some(Comparator::Less),
        Tok::LessEq => Some(Comparator::LessEq),
        Tok::Greater => Some(Comparator::Greater),
        Tok::GreaterEq => Some(Comparator::GreaterEq),
        _ => None,
    }
}

fn atom_starts() -> (r: Vec<Tok>)
    ensures
        r@ == seq![Tok::Ident, Tok::New, Tok::String, Tok::Number, Tok::OpenBrace, Tok::OpenBracket, Tok::OpenParen],
{
    let mut v: Vec<Tok> = Vec::new();
    v.push(Tok::Ident);
    v.push(Tok::New);
    v.push(Tok::String);
    v.push(Tok::Number);
    v.push(Tok::OpenBrace);
    v.push(Tok::OpenBracket);
    v.push(Tok::OpenParen);
    v
}

/// The kinds of some tokens.
pub open spec fn kinds(toks: Seq<Token>) -> Seq<Tok> {
    toks.map_values(|t: Token| t.kind)
}

/// The kinds of tokens are the kinds of their values.
pub proof fn lemma_kinds(toks: Seq<Token>)
    ensures
        kinds(toks) == crate::tokenizer::models(toks).map_values(|m: crate::tokenizer::TokModel| m.kind),
{
    assert(kinds(toks) =~= crate::tokenizer::models(toks).map_values(|m: crate::tokenizer::TokModel| m.kind));
}

/// A parse outcome agrees with `o`: it succeeds exactly when `o` is a
/// position, and then ends there.
pub open spec fn agrees<T>(r: PResult<T>, o: Option<int>) -> bool {
    &&& (r is Ok <==> o is Some)
    &&& r matches Ok((_, p)) ==> o == Some(p as int)
}

/// `o` when it is a position after `p` and within the tokens.
pub open spec fn after(ks: Seq<Tok>, p: int, o: Option<int>) -> Option<int> {
    match o {
        Some(q) => if p < q <= ks.len() { Some(q) } else { None },
        None => None,
    }
}

/// Where an expression starting at `p` ends, if it parses: alternatives
/// joined by `or`.
pub open spec fn e_or(ks: Seq<Tok>, p: int) -> Option<int>
    decreases ks.len() - p, 8nat,
{
    if !(0 <= p < ks.len()) {
        None
    } else {
        match after(ks, p, e_and(ks, p)) {
            Some(q) => t_or(ks, q),
            None => None,
        }
    }
}

/// Further `or` operands from `q` on.
pub open spec fn t_or(ks: Seq<Tok>, q: int) -> Option<int>
    decreases ks.len() - q, 0nat,
{
    if !(0 <= q < ks.len()) {
        None
    } else if ks[q] == Tok::Or {
        match after(ks, q, e_and(ks, q + 1)) {
            Some(q2) => t_or(ks, q2),
            None => None,
        }
    } else {
        Some(q)
    }
}

/// Operands joined by `and`.
pub open spec fn e_and(ks: Seq<Tok>, p: int) -> Option<int>
    decreases ks.len() - p, 7nat,
{
    if !(0 <= p < ks.len()) {
        None
    } else {
        match after(ks, p, e_not(ks, p)) {
            Some(q) => t_and(ks, q),
            None => None,
        }
    }
}

/// Further `and` operands from `q` on.
pub open spec fn t_and(ks: Seq<Tok>, q: int) -> Option<int>
    decreases ks.len() - q, 0nat,
{
    if !(0 <= q < ks.len()) {
        None
    } else if ks[q] == Tok::And {
        match after(ks, q, e_not(ks, q + 1)) {
            Some(q2) => t_and(ks, q2),
            None => None,
        }
    } else {
        Some(q)
    }
}

/// A comparison, optionally after `not`.
pub open spec fn e_not(ks: Seq<Tok>, p: int) -> Option<int>
    decreases ks.len() - p, 6nat,
{
    if !(0 <= p < ks.len()) {
        None
    } else if ks[p] == Tok::Not {
        e_cmp(ks, p + 1)
    } else {
        e_cmp(ks, p)
    }
}

/// Sums joined by comparison operators.
pub open spec fn e_cmp(ks: Seq<Tok>, p: int) -> Option<int>
    decreases ks.len() - p, 5nat,
{
    if !(0 <= p < ks.len()) {
        None
    } else {
        match after(ks, p, e_sum(ks, p)) {
            Some(q) => t_cmp(ks, q),
            None => None,
        }
    }
}

/// Further compared operands from `q` on.
pub open spec fn t_cmp(ks: Seq<Tok>, q: int) -> Option<int>
    decreases ks.len() - q, 0nat,
{
    if !(0 <= q < ks.len()) {
        None
    } else if comparator_of(ks[q]) is Some {
        match after(ks, q, e_sum(ks, q + 1)) {
            Some(q2) => t_cmp(ks, q2),
            None => None,
        }
    } else {
        Some(q)
    }
}

/// Products joined by `+` and `-`.
pub open spec fn e_sum(ks: Seq<Tok>, p: int) -> Option<int>
    decreases ks.len() - p, 4nat,
{
    if !(0 <= p < ks.len()) {
        None
    } else {
        match after(ks, p, e_prod(ks, p)) {
            Some(q) => t_sum(ks, q),
            None => None,
        }
    }
}

/// Further summands from `q` on.
pub open spec fn t_sum(ks: Seq<Tok>, q: int) -> Option<int>
    decreases ks.len() - q, 0nat,
{
    if !(0 <= q < ks.len()) {
        None
    } else if ks[q] == Tok::Plus || ks[q] == Tok::Dash {
        match after(ks, q, e_prod(ks, q + 1)) {
            Some(q2) => t_sum(ks, q2),
            None => None,
        }
    } else {
        Some(q)
    }
}

/// Suffixed atoms joined by `*` and `/`.
pub open spec fn e_prod(ks: Seq<Tok>, p: int) -> Option<int>
    decreases ks.len() - p, 3nat,
{
    if !(0 <= p < ks.len()) {
        None
    } else {
        match after(ks, p, e_call(ks, p)) {
            Some(q) => t_prod(ks, q),
            None => None,
        }
    }
}

/// Further factors from `q` on.
pub open spec fn t_prod(ks: Seq<Tok>, q: int) -> Option<int>
    decreases ks.len() - q, 0nat,
{
    if !(0 <= q < ks.len()) {
        None
    } else if ks[q] == Tok::Multiply || ks[q] == Tok::Divide {
        match after(ks, q, e_call(ks, q + 1)) {
            Some(q2) => t_prod(ks, q2),
            None => None,
        }
    } else {
        Some(q)
    }
}

/// An atom with its attribute, item and call suffixes.
pub open spec fn e_call(ks: Seq<Tok>, p: int) -> Option<int>
    decreases ks.len() - p, 2nat,
{
    if !(0 <= p < ks.len()) {
        None
    } else {
        match after(ks, p, e_atom(ks, p)) {
            Some(q) => t_call(ks, q),
            None => None,
        }
    }
}

/// Further suffixes from `q` on.
pub open spec fn t_call(ks: Seq<Tok>, q: int) -> Option<int>
    decreases ks.len() - q, 0nat,
{
    if !(0 <= q < ks.len()) {
        None
    } else if ks[q] == Tok::Dot {
        if q + 1 < ks.len() && ks[q + 1] == Tok::Ident {
            t_call(ks, q + 2)
        } else {
            None
        }
    } else if ks[q] == Tok::OpenBracket {
        match after(ks, q, e_or(ks, q + 1)) {
            Some(r) => if r < ks.len() && ks[r] == Tok::CloseBracket {
                t_call(ks, r + 1)
            } else {
                None
            },
            None => None,
        }
    } else if ks[q] == Tok::OpenParen {
        match after(ks, q, e_items(ks, q + 1, Tok::CloseParen)) {
            Some(r) => if r < ks.len() && ks[r] == Tok::CloseParen {
                t_call(ks, r + 1)
            } else {
                None
            },
            None => None,
        }
    } else {
        Some(q)
    }
}

/// Expressions separated by commas, up to a `close` token (not taken).
pub open spec fn e_items(ks: Seq<Tok>, p: int, close: Tok) -> Option<int>
    decreases ks.len() - p, 10nat,
{
    if !(0 <= p < ks.len()) {
        None
    } else if ks[p] == close {
        Some(p)
    } else {
        match after(ks, p, e_or(ks, p)) {
            Some(q) => t_items(ks, q),
            None => None,
        }
    }
}

/// Further items from `q` on.
pub open spec fn t_items(ks: Seq<Tok>, q: int) -> Option<int>
    decreases ks.len() - q, 0nat,
{
    if !(0 <= q < ks.len()) {
        None
    } else if ks[q] == Tok::Comma {
        match after(ks, q, e_or(ks, q + 1)) {
            Some(q2) => t_items(ks, q2),
            None => None,
        }
    } else {
        Some(q)
    }
}

/// A name, `new` expression, string, number, dictionary, list, or
/// parenthesised expression.
pub open spec fn e_atom(ks: Seq<Tok>, p: int) -> Option<int>
    decreases ks.len() - p, 1nat,
{
    if !(0 <= p < ks.len()) {
        None
    } else {
        let k = ks[p];
        if k == Tok::Ident || k == Tok::String || k == Tok::Number {
            Some(p + 1)
        } else if k == Tok::New {
            e_or(ks, p + 1)
        } else if k == Tok::OpenBrace {
            e_dict(ks, p)
        } else if k == Tok::OpenBracket {
            e_list(ks, p)
        } else if k == Tok::OpenParen {
            match after(ks, p, e_or(ks, p + 1)) {
                Some(q) => if q < ks.len() && ks[q] == Tok::CloseParen { Some(q + 1) } else { None },
                None => None,
            }
        } else {
            None
        }
    }
}

/// A list: brackets around expressions separated by commas.
pub open spec fn e_list(ks: Seq<Tok>, p: int) -> Option<int>
    decreases ks.len() - p, 0nat,
{
    if !(0 <= p < ks.len()) || ks[p] != Tok::OpenBracket {
        None
    } else {
        match after(ks, p, e_items(ks, p + 1, Tok::CloseBracket)) {
            Some(q) => if q < ks.len() && ks[q] == Tok::CloseBracket { Some(q + 1) } else { None },
            None => None,
        }
    }
}

/// A dictionary: braces around `key: value` entries separated by commas.
pub open spec fn e_dict(ks: Seq<Tok>, p: int) -> Option<int>
    decreases ks.len() - p, 0nat,
{
    if !(0 <= p && p + 1 < ks.len()) || ks[p] != Tok::OpenBrace {
        None
    } else if ks[p + 1] == Tok::CloseBrace {
        Some(p + 2)
    } else {
        match after(ks, p + 1, e_entry(ks, p + 1)) {
            Some(q) => t_entries(ks, q),
            None => None,
        }
    }
}

/// Further entries from `q` on, and the closing brace.
pub open spec fn t_entries(ks: Seq<Tok>, q: int) -> Option<int>
    decreases ks.len() - q, 0nat,
{
    if !(0 <= q < ks.len()) {
        None
    } else if ks[q] == Tok::Comma {
        match after(ks, q, e_entry(ks, q + 1)) {
            Some(q2) => t_entries(ks, q2),
            None => None,
        }
    } else if ks[q] == Tok::CloseBrace {
        Some(q + 1)
    } else {
        None
    }
}

/// One entry: a string or a name, a colon, and the value.
pub open spec fn e_entry(ks: Seq<Tok>, p: int) -> Option<int>
    decreases ks.len() - p, 0nat,
{
    if 0 <= p && p + 2 < ks.len() && (ks[p] == Tok::String || ks[p] == Tok::Ident) && ks[p + 1] == Tok::Colon {
        e_or(ks, p + 2)
    } else {
        None
    }
}

/// Whether the token at `p` is of kind `k`.
pub open spec fn tk(ks: Seq<Tok>, p: int, k: Tok) -> bool {
    0 <= p < ks.len() && ks[p] == k
}

/// Where a dashed name starting at `p` ends (it may be empty).
pub open spec fn g_dash(ks: Seq<Tok>, p: int) -> Option<int> {
    if !(0 <= p < ks.len()) {
        None
    } else if ks[p] != Tok::Ident && ks[p] != Tok::Number {
        Some(p)
    } else {
        g_dash_t(ks, p + 1)
    }
}

/// Further dashed parts from `q` on.
pub open spec fn g_dash_t(ks: Seq<Tok>, q: int) -> Option<int>
    decreases ks.len() - q,
{
    if !(0 <= q < ks.len()) {
        None
    } else if ks[q] == Tok::Dash {
        if tk(ks, q + 1, Tok::Ident) || tk(ks, q + 1, Tok::Number) {
            g_dash_t(ks, q + 2)
        } else {
            None
        }
    } else {
        Some(q)
    }
}

/// One `.name` class, optionally with `?(condition)`.
pub open spec fn g_class(ks: Seq<Tok>, p: int) -> Option<int> {
    if !tk(ks, p, Tok::Dot) {
        None
    } else {
        match g_dash(ks, p + 1) {
            Some(q) => if tk(ks, q, Tok::Question) {
                if tk(ks, q + 1, Tok::OpenParen) {
                    match e_or(ks, q + 2) {
                        Some(r) => if tk(ks, r, Tok::CloseParen) { Some(r + 1) } else { None },
                        None => None,
                    }
                } else {
                    None
                }
            } else {
                Some(q)
            },
            None => None,
        }
    }
}

/// Further classes from `q` on.
pub open spec fn g_classes(ks: Seq<Tok>, q: int) -> Option<int>
    decreases ks.len() - q,
{
    if !(0 <= q < ks.len()) {
        None
    } else if ks[q] == Tok::Dot {
        match g_class(ks, q) {
            Some(q2) => if q < q2 <= ks.len() { g_classes(ks, q2) } else { None },
            None => None,
        }
    } else {
        Some(q)
    }
}

/// The head of an element: a name and classes, or classes alone.
pub open spec fn g_start(ks: Seq<Tok>, p: int) -> Option<int> {
    if tk(ks, p, Tok::Ident) {
        g_classes(ks, p + 1)
    } else {
        match g_class(ks, p) {
            Some(q) => g_classes(ks, q),
            None => None,
        }
    }
}

/// One attribute: a dashed name, `=`, and a string or an expression.
pub open spec fn g_attr(ks: Seq<Tok>, p: int) -> Option<int> {
    match g_dash(ks, p) {
        Some(q) => if tk(ks, q, Tok::Equals) {
            if tk(ks, q + 1, Tok::String) { Some(q + 2) } else { e_or(ks, q + 1) }
        } else {
            None
        },
        None => None,
    }
}

/// The token kind `k` at `q`, then nothing more.
pub open spec fn closing(ks: Seq<Tok>, q: int, k: Tok) -> Option<int> {
    if tk(ks, q, k) { Some(q + 1) } else { None }
}

/// An item at `p` (just after a separator or an opener), then the rest.
#[verifier::rlimit(50)]
pub open spec fn g_attr_then(ks: Seq<Tok>, p: int) -> Option<int>
    decreases ks.len() - p, 1nat,
{
    match g_attr(ks, p) {
        Some(q) => if p - 1 < q <= ks.len() { g_attrs_t(ks, q) } else { None },
        None => None,
    }
}

/// Further attributes from `q` on, and the closing bracket.
pub open spec fn g_attrs_t(ks: Seq<Tok>, q: int) -> Option<int>
    decreases ks.len() - q, 0nat,
{
    if tk(ks, q, Tok::Comma) && 0 <= q {
        g_attr_then(ks, q + 1)
    } else {
        closing(ks, q, Tok::CloseBracket)
    }
}

/// The optional bracketed attributes of an element.
pub open spec fn g_attrs(ks: Seq<Tok>, p: int) -> Option<int> {
    if !tk(ks, p, Tok::OpenBracket) {
        Some(p)
    } else if tk(ks, p + 1, Tok::CloseBracket) {
        Some(p + 2)
    } else {
        g_attr_then(ks, p + 1)
    }
}

/// A link destination.
pub open spec fn g_dest(ks: Seq<Tok>, p: int) -> Option<int> {
    match e_or(ks, p) {
        Some(q) => if tk(ks, q, Tok::ArrowRight) { e_or(ks, q + 1) } else { Some(q) },
        None => None,
    }
}

/// An optional bracketed filter.
pub open spec fn g_filter(ks: Seq<Tok>, p: int) -> Option<int> {
    if tk(ks, p, Tok::OpenBracket) {
        match e_or(ks, p + 1) {
            Some(q) => closing(ks, q, Tok::CloseBracket),
            None => None,
        }
    } else {
        Some(p)
    }
}

/// `event[filter] = destination`.
pub open spec fn g_single(ks: Seq<Tok>, p: int) -> Option<int> {
    if !tk(ks, p, Tok::Ident) {
        None
    } else {
        match g_filter(ks, p + 1) {
            Some(q) => if tk(ks, q, Tok::Equals) { g_dest(ks, q + 1) } else { None },
            None => None,
        }
    }
}

/// One attribute of a multiple binding: a name, an optional `: alias`, an
/// optional filter.
pub open spec fn g_mname(ks: Seq<Tok>, p: int) -> Option<int> {
    if !tk(ks, p, Tok::Ident) {
        None
    } else if tk(ks, p + 1, Tok::Colon) {
        if tk(ks, p + 2, Tok::Ident) { g_filter(ks, p + 3) } else { None }
    } else {
        g_filter(ks, p + 1)
    }
}

/// `} = destination` after the attributes of a multiple binding.
pub open spec fn g_mclose(ks: Seq<Tok>, q: int) -> Option<int> {
    if tk(ks, q, Tok::CloseBrace) && tk(ks, q + 1, Tok::Equals) {
        g_dest(ks, q + 2)
    } else {
        None
    }
}

/// An item at `p` (just after a separator or an opener), then the rest.
#[verifier::rlimit(50)]
pub open spec fn g_mname_then(ks: Seq<Tok>, p: int) -> Option<int>
    decreases ks.len() - p, 1nat,
{
    match g_mname(ks, p) {
        Some(q) => if p - 1 < q <= ks.len() { g_mnames_t(ks, q) } else { None },
        None => None,
    }
}

/// Further attributes of a multiple binding from `q` on, then its end.
pub open spec fn g_mnames_t(ks: Seq<Tok>, q: int) -> Option<int>
    decreases ks.len() - q, 0nat,
{
    if tk(ks, q, Tok::Comma) && 0 <= q {
        g_mname_then(ks, q + 1)
    } else {
        g_mclose(ks, q)
    }
}

/// `{attr[: event][[filter]], ...} = destination`.
pub open spec fn g_multi(ks: Seq<Tok>, p: int) -> Option<int> {
    if !tk(ks, p, Tok::OpenBrace) {
        None
    } else if tk(ks, p + 1, Tok::Ident) {
        g_mname_then(ks, p + 1)
    } else {
        g_mclose(ks, p + 1)
    }
}

/// One binding of a link statement.
pub open spec fn g_one(ks: Seq<Tok>, p: int) -> Option<int> {
    if tk(ks, p, Tok::OpenBrace) { g_multi(ks, p) } else { g_single(ks, p) }
}

/// An item at `p` (just after a separator or an opener), then the rest.
#[verifier::rlimit(50)]
pub open spec fn g_one_then(ks: Seq<Tok>, p: int) -> Option<int>
    decreases ks.len() - p, 1nat,
{
    match g_one(ks, p) {
        Some(q) => if p - 1 < q <= ks.len() { g_links_t(ks, q) } else { None },
        None => None,
    }
}

/// Further bindings of a link statement from `q` on, then the line end.
pub open spec fn g_links_t(ks: Seq<Tok>, q: int) -> Option<int>
    decreases ks.len() - q, 0nat,
{
    if tk(ks, q, Tok::Comma) && 0 <= q {
        g_one_then(ks, q + 1)
    } else {
        closing(ks, q, Tok::Newline)
    }
}

/// A `link` statement.
pub open spec fn g_link(ks: Seq<Tok>, p: int) -> Option<int> {
    if !tk(ks, p, Tok::Link) {
        None
    } else if tk(ks, p + 1, Tok::Ident) || tk(ks, p + 1, Tok::OpenBrace) {
        g_one_then(ks, p + 1)
    } else {
        closing(ks, p + 1, Tok::Newline)
    }
}

/// An expression then the end of the line.
pub open spec fn g_expr_line(ks: Seq<Tok>, p: int) -> Option<int> {
    match e_or(ks, p) {
        Some(q) => closing(ks, q, Tok::Newline),
        None => None,
    }
}

/// An optional indented block of statements.
pub open spec fn g_chunk(ks: Seq<Tok>, p: int) -> Option<int>
    decreases ks.len() - p, 3nat,
{
    if !(0 <= p < ks.len()) {
        None
    } else if ks[p] != Tok::Indent {
        Some(p)
    } else {
        match after(ks, p, g_stmt(ks, p + 1)) {
            Some(q) => g_stmts_t(ks, q),
            None => None,
        }
    }
}

/// Further statements of a block from `q` on, then its unindent.
pub open spec fn g_stmts_t(ks: Seq<Tok>, q: int) -> Option<int>
    decreases ks.len() - q, 4nat,
{
    if !(0 <= q < ks.len()) {
        None
    } else if starts_statement(ks[q]) {
        match after(ks, q, g_stmt(ks, q)) {
            Some(q2) => g_stmts_t(ks, q2),
            None => None,
        }
    } else {
        closing(ks, q, Tok::Dedent)
    }
}

/// One statement, chosen by its first token.
pub open spec fn g_stmt(ks: Seq<Tok>, p: int) -> Option<int>
    decreases ks.len() - p, 2nat,
{
    if !(0 <= p < ks.len()) {
        None
    } else {
        let k = ks[p];
        if k == Tok::Ident || k == Tok::Dot {
            g_element(ks, p)
        } else if k == Tok::String {
            closing(ks, p + 1, Tok::Newline)
        } else if k == Tok::Store || k == Tok::Let {
            if tk(ks, p + 1, Tok::Ident) && tk(ks, p + 2, Tok::Equals) { g_expr_line(ks, p + 3) } else { None }
        } else if k == Tok::Link {
            g_link(ks, p)
        } else if k == Tok::If {
            g_cond(ks, p)
        } else if k == Tok::For {
            g_iter(ks, p)
        } else if k == Tok::Equals {
            g_expr_line(ks, p + 1)
        } else {
            None
        }
    }
}

/// An element: head, attributes, then a string or a block.
pub open spec fn g_element(ks: Seq<Tok>, p: int) -> Option<int>
    decreases ks.len() - p, 1nat,
{
    match g_start(ks, p) {
        Some(q) => match g_attrs(ks, q) {
            Some(q1) => if tk(ks, q1, Tok::String) {
                closing(ks, q1 + 1, Tok::Newline)
            } else if tk(ks, q1, Tok::Newline) && p < q1 + 1 <= ks.len() {
                g_chunk(ks, q1 + 1)
            } else {
                None
            },
            None => None,
        },
        None => None,
    }
}

/// `kw cond:` and its block.
pub open spec fn g_branch(ks: Seq<Tok>, p: int, kw: Tok) -> Option<int>
    decreases ks.len() - p, 0nat,
{
    if !tk(ks, p, kw) {
        None
    } else {
        match e_or(ks, p + 1) {
            Some(q) => if tk(ks, q, Tok::Colon) && tk(ks, q + 1, Tok::Newline) && p < q + 2 <= ks.len() {
                g_chunk(ks, q + 2)
            } else {
                None
            },
            None => None,
        }
    }
}

/// Further `elif` branches from `q` on, and an optional `else`.
pub open spec fn g_elifs(ks: Seq<Tok>, q: int) -> Option<int>
    decreases ks.len() - q, 1nat,
{
    if !(0 <= q < ks.len()) {
        None
    } else if ks[q] == Tok::Elif {
        match after(ks, q, g_branch(ks, q, Tok::Elif)) {
            Some(q2) => g_elifs(ks, q2),
            None => None,
        }
    } else if ks[q] == Tok::Else {
        if tk(ks, q + 1, Tok::Colon) && tk(ks, q + 2, Tok::Newline) { g_chunk(ks, q + 3) } else { None }
    } else {
        Some(q)
    }
}

/// A conditional.
pub open spec fn g_cond(ks: Seq<Tok>, p: int) -> Option<int>
    decreases ks.len() - p, 1nat,
{
    match after(ks, p, g_branch(ks, p, Tok::If)) {
        Some(q) => g_elifs(ks, q),
        None => None,
    }
}

/// An iteration.
pub open spec fn g_iter(ks: Seq<Tok>, p: int) -> Option<int>
    decreases ks.len() - p, 1nat,
{
    if !(tk(ks, p, Tok::For) && tk(ks, p + 1, Tok::Ident) && tk(ks, p + 2, Tok::Of)) {
        None
    } else {
        match e_or(ks, p + 3) {
            Some(q) => if tk(ks, q, Tok::Colon) && tk(ks, q + 1, Tok::Newline) && p < q + 2 <= ks.len() {
                g_chunk(ks, q + 2)
            } else {
                None
            },
            None => None,
        }
    }
}

/// A formal parameter with an optional string default.
pub open spec fn g_param(ks: Seq<Tok>, p: int) -> Option<int> {
    if !tk(ks, p, Tok::Ident) {
        None
    } else if tk(ks, p + 1, Tok::Equals) {
        closing(ks, p + 2, Tok::String)
    } else {
        Some(p + 1)
    }
}

/// An item at `p` (just after a separator or an opener), then the rest.
#[verifier::rlimit(50)]
pub open spec fn g_param_then(ks: Seq<Tok>, p: int) -> Option<int>
    decreases ks.len() - p, 1nat,
{
    match g_param(ks, p) {
        Some(q) => if p - 1 < q <= ks.len() { g_params_t(ks, q) } else { None },
        None => None,
    }
}

/// Further parameters from `q` on, then the closing parenthesis.
pub open spec fn g_params_t(ks: Seq<Tok>, q: int) -> Option<int>
    decreases ks.len() - q, 0nat,
{
    if tk(ks, q, Tok::Comma) && 0 <= q {
        g_param_then(ks, q + 1)
    } else {
        closing(ks, q, Tok::CloseParen)
    }
}

/// The optional parameter list of a markup block.
pub open spec fn g_params(ks: Seq<Tok>, p: int) -> Option<int> {
    if !tk(ks, p, Tok::OpenParen) {
        Some(p)
    } else if tk(ks, p + 1, Tok::Ident) {
        g_param_then(ks, p + 1)
    } else {
        closing(ks, p + 1, Tok::CloseParen)
    }
}

/// Further event names from `q` on.
pub open spec fn g_events_t(ks: Seq<Tok>, q: int) -> Option<int>
    decreases ks.len() - q,
{
    if tk(ks, q, Tok::Comma) {
        if tk(ks, q + 1, Tok::Ident) { g_events_t(ks, q + 2) } else { None }
    } else {
        Some(q)
    }
}

/// The optional `events` list of a markup block.
pub open spec fn g_events(ks: Seq<Tok>, p: int) -> Option<int> {
    if !tk(ks, p, Tok::Events) {
        Some(p)
    } else if tk(ks, p + 1, Tok::Ident) {
        g_events_t(ks, p + 2)
    } else {
        Some(p + 1)
    }
}

/// A markup block after its keyword.
pub open spec fn g_hblock(ks: Seq<Tok>, p: int) -> Option<int> {
    if !tk(ks, p, Tok::Ident) {
        None
    } else {
        match g_params(ks, p + 1) {
            Some(q) => match g_events(ks, q) {
                Some(q1) => if tk(ks, q1, Tok::Colon) && tk(ks, q1 + 1, Tok::Newline) {
                    g_chunk(ks, q1 + 2)
                } else {
                    None
                },
                None => None,
            },
            None => None,
        }
    }
}

/// Whether `toks[a..b]` spells the expression `e` at precedence `level`:
/// 8 joins by `or`, 7 by `and`, 6 negates with `not`, 5 compares, 4 adds
/// and subtracts, 3 multiplies and divides, 2 applies attribute, item and
/// call suffixes, and 1 is an atom. Binary operators nest to the left, and
/// each level also admits any expression of the next tighter level.
pub open spec fn derives(toks: Seq<Token>, a: int, b: int, e: Expression, level: nat) -> bool
    decreases b - a, level,
{
    if !(0 <= a < b <= toks.len()) || level == 0 {
        false
    } else if level >= 8 {
        (match e {
            Expression::Or(l, r) => exists|m: int| #![trigger toks[m]] a < m < b - 1 && toks[m].kind == Tok::Or && derives(toks, a, m, *l, 8) && derives(toks, m + 1, b, *r, 7),
            _ => false,
        }) || derives(toks, a, b, e, 7)
    } else if level == 7 {
        (match e {
            Expression::And(l, r) => exists|m: int| #![trigger toks[m]] a < m < b - 1 && toks[m].kind == Tok::And && derives(toks, a, m, *l, 7) && derives(toks, m + 1, b, *r, 6),
            _ => false,
        }) || derives(toks, a, b, e, 6)
    } else if level == 6 {
        (match e {
            Expression::Not(x) => toks[a].kind == Tok::Not && derives(toks, a + 1, b, *x, 5),
            _ => false,
        }) || derives(toks, a, b, e, 5)
    } else if level == 5 {
        (match e {
            Expression::Comparison(op, l, r) => exists|m: int| #![trigger toks[m]] a < m < b - 1 && comparator_of(toks[m].kind) == Some(op) && derives(toks, a, m, *l, 5) && derives(toks, m + 1, b, *r, 4),
            _ => false,
        }) || derives(toks, a, b, e, 4)
    } else if level == 4 {
        (match e {
            Expression::Add(l, r) => exists|m: int| #![trigger toks[m]] a < m < b - 1 && toks[m].kind == Tok::Plus && derives(toks, a, m, *l, 4) && derives(toks, m + 1, b, *r, 3),
            Expression::Sub(l, r) => exists|m: int| #![trigger toks[m]] a < m < b - 1 && toks[m].kind == Tok::Dash && derives(toks, a, m, *l, 4) && derives(toks, m + 1, b, *r, 3),
            _ => false,
        }) || derives(toks, a, b, e, 3)
    } else if level == 3 {
        (match e {
            Expression::Mul(l, r) => exists|m: int| #![trigger toks[m]] a < m < b - 1 && toks[m].kind == Tok::Multiply && derives(toks, a, m, *l, 3) && derives(toks, m + 1, b, *r, 2),
            Expression::Div(l, r) => exists|m: int| #![trigger toks[m]] a < m < b - 1 && toks[m].kind == Tok::Divide && derives(toks, a, m, *l, 3) && derives(toks, m + 1, b, *r, 2),
            _ => false,
        }) || derives(toks, a, b, e, 2)
    } else if level == 2 {
        (match e {
            Expression::Attr(x, n) => b - 2 > a && toks[b - 2].kind == Tok::Dot && toks[b - 1].kind == Tok::Ident && toks[b - 1].text@ == n@ && derives(toks, a, b - 2, *x, 2),
            Expression::Item(x, i) => toks[b - 1].kind == Tok::CloseBracket && exists|m: int| #![trigger toks[m]] a < m < b - 2 && toks[m].kind == Tok::OpenBracket && derives(toks, a, m, *x, 2) && derives(toks, m + 1, b - 1, *i, 8),
            Expression::Call(f, args) => toks[b - 1].kind == Tok::CloseParen && exists|m: int| #![trigger toks[m]] a < m < b - 1 && toks[m].kind == Tok::OpenParen && derives(toks, a, m, *f, 2) && items_derive(toks, m + 1, b - 1, args@),
            _ => false,
        }) || derives(toks, a, b, e, 1)
    } else {
        let t = toks[a];
        ||| (t.kind == Tok::OpenParen && toks[b - 1].kind == Tok::CloseParen && derives(toks, a + 1, b - 1, e, 8))
        ||| match e {
            Expression::Name(n) => b == a + 1 && t.kind == Tok::Ident && n@ == t.text@,
            Expression::Num(n) => b == a + 1 && t.kind == Tok::Number && n@ == t.text@,
            Expression::Str(v) => b == a + 1 && t.kind == Tok::String && t.text@.len() > 0 && v@ == crate::token::unescape_spec(t.text@.subrange(1, t.text@.len() as int), t.text@[0]),
            Expression::New(x) => t.kind == Tok::New && derives(toks, a + 1, b, *x, 8),
            Expression::List(items) => t.kind == Tok::OpenBracket && toks[b - 1].kind == Tok::CloseBracket && b - 1 > a && items_derive(toks, a + 1, b - 1, items@),
            Expression::Dict(items) => t.kind == Tok::OpenBrace && toks[b - 1].kind == Tok::CloseBrace && b - 1 > a && entries_derive(toks, a + 1, b - 1, items@),
            _ => false,
        }
    }
}

/// Whether `toks[a..b]` spells the expressions `items` separated by commas.
pub open spec fn items_derive(toks: Seq<Token>, a: int, b: int, items: Seq<Expression>) -> bool
    decreases b - a, 9nat,
{
    if !(0 <= a <= b <= toks.len()) {
        false
    } else if items.len() == 0 {
        a == b
    } else if items.len() == 1 {
        derives(toks, a, b, items[0], 8)
    } else {
        exists|m: int| #![trigger toks[m]] a < m < b - 1 && toks[m].kind == Tok::Comma && items_derive(toks, a, m, items.drop_last()) && derives(toks, m + 1, b, items.last(), 8)
    }
}

/// Whether `toks[a..b]` spells one dictionary entry: a string or a name,
/// a colon, and the value.
pub open spec fn entry_derives(toks: Seq<Token>, a: int, b: int, item: (String, Expression)) -> bool
    decreases b - a, 9nat,
{
    if !(0 <= a && a + 2 < b <= toks.len()) {
        false
    } else {
        &&& (toks[a].kind == Tok::Ident && item.0@ == toks[a].text@) || (toks[a].kind == Tok::String && toks[a].text@.len() > 0 && item.0@ == crate::token::unescape_spec(toks[a].text@.subrange(1, toks[a].text@.len() as int), toks[a].text@[0]))
        &&& toks[a + 1].kind == Tok::Colon
        &&& derives(toks, a + 2, b, item.1, 8)
    }
}

/// Whether `toks[a..b]` spells the dictionary entries `items` separated by
/// commas.
pub open spec fn entries_derive(toks: Seq<Token>, a: int, b: int, items: Seq<(String, Expression)>) -> bool
    decreases b - a, 10nat,
{
    if !(0 <= a <= b <= toks.len()) {
        false
    } else if items.len() == 0 {
        a == b
    } else if items.len() == 1 {
        entry_derives(toks, a, b, items[0])
    } else {
        exists|m: int| #![trigger toks[m]] a < m < b - 1 && toks[m].kind == Tok::Comma && entries_derive(toks, a, m, items.drop_last()) && entry_derives(toks, m + 1, b, items.last())
    }
}

/// An expression of the markup language.
#[verifier::spinoff_prover]
pub fn expression(toks: &Vec<Token>, pos: usize) -> (r: PResult<Expression>)
    requires
        tokens_ok(toks@),
        pos < toks@.len(),
    ensures
        agrees(r, e_or(kinds(toks@), pos as int)),
        r matches Ok((e, p)) ==> pos < p < toks@.len() && derives(toks@, pos as int, p as int, e, 8),
    decreases toks@.len() - pos, 9nat,
{
    boolean(toks, pos)
}

/// Alternatives joined by `or`, of conjunctions joined by `and`, of
/// comparisons optionally negated by `not`.
#[verifier::spinoff_prover]
#[verifier::rlimit(100)]
pub fn boolean(toks: &Vec<Token>, pos: usize) -> (r: PResult<Expression>)
    requires
        tokens_ok(toks@),
        pos < toks@.len(),
    ensures
        agrees(r, e_or(kinds(toks@), pos as int)),
        r matches Ok((e, p)) ==> pos < p < toks@.len() && derives(toks@, pos as int, p as int, e, 8),
    decreases toks@.len() - pos, 8nat,
{
    let (mut left, mut p) = and_expr(toks, pos)?;
    while peek(toks, p) == Tok::Or
        invariant
            e_or(kinds(toks@), pos as int) == t_or(kinds(toks@), p as int),
            tokens_ok(toks@),
            pos < p < toks@.len(),
            derives(toks@, pos as int, p as int, left, 8),
        decreases toks@.len() - p,
    {
        let q = expect(toks, p, Tok::Or)?;
        let (right, q2) = and_expr(toks, q)?;
        let ghost gl = left;
        left = Expression::Or(Box::new(left), Box::new(right));
        assert(toks@[p as int].kind == Tok::Or && derives(toks@, pos as int, p as int, gl, 8) && derives(toks@, p + 1, q2 as int, right, 7));
        p = q2;
    }
    Ok((left, p))
}

#[verifier::spinoff_prover]
#[verifier::rlimit(100)]
fn and_expr(toks: &Vec<Token>, pos: usize) -> (r: PResult<Expression>)
    requires
        tokens_ok(toks@),
        pos < toks@.len(),
    ensures
        agrees(r, e_and(kinds(toks@), pos as int)),
        r matches Ok((e, p)) ==> pos < p < toks@.len() && derives(toks@, pos as int, p as int, e, 7),
    decreases toks@.len() - pos, 7nat,
{
    let (mut left, mut p) = not_expr(toks, pos)?;
    while peek(toks, p) == Tok::And
        invariant
            e_and(kinds(toks@), pos as int) == t_and(kinds(toks@), p as int),
            tokens_ok(toks@),
            pos < p < toks@.len(),
            derives(toks@, pos as int, p as int, left, 7),
        decreases toks@.len() - p,
    {
        let q = expect(toks, p, Tok::And)?;
        let (right, q2) = not_expr(toks, q)?;
        let ghost gl = left;
        left = Expression::And(Box::new(left), Box::new(right));
        assert(toks@[p as int].kind == Tok::And && derives(toks@, pos as int, p as int, gl, 7) && derives(toks@, p + 1, q2 as int, right, 6));
        p = q2;
    }
    Ok((left, p))
}

#[verifier::spinoff_prover]
fn not_expr(toks: &Vec<Token>, pos: usize) -> (r: PResult<Expression>)
    requires
        tokens_ok(toks@),
        pos < toks@.len(),
    ensures
        agrees(r, e_not(kinds(toks@), pos as int)),
        r matches Ok((e, p)) ==> pos < p < toks@.len() && derives(toks@, pos as int, p as int, e, 6),
    decreases toks@.len() - pos, 6nat,
{
    if peek(toks, pos) == Tok::Not {
        let q = expect(toks, pos, Tok::Not)?;
        let (e, p) = comparison(toks, q)?;
        Ok((Expression::Not(Box::new(e)), p))
    } else {
        comparison(toks, pos)
    }
}

/// Sums compared by `== != < <= > >=`; a chain of comparisons nests to the
/// left.
#[verifier::spinoff_prover]
#[verifier::rlimit(100)]
pub fn comparison(toks: &Vec<Token>, pos: usize) -> (r: PResult<Expression>)
    requires
        tokens_ok(toks@),
        pos < toks@.len(),
    ensures
        agrees(r, e_cmp(kinds(toks@), pos as int)),
        r matches Ok((e, p)) ==> pos < p < toks@.len() && derives(toks@, pos as int, p as int, e, 5),
    decreases toks@.len() - pos, 5nat,
{
    let (mut left, mut p) = sum(toks, pos)?;
    loop
        invariant
            e_cmp(kinds(toks@), pos as int) == t_cmp(kinds(toks@), p as int),
            tokens_ok(toks@),
            pos < p < toks@.len(),
            derives(toks@, pos as int, p as int, left, 5),
        decreases toks@.len() - p,
    {
        let k = peek(toks, p);
        match comparator_exec(k) {
            Some(op) => {
                let q = expect(toks, p, k)?;
                let (right, q2) = sum(toks, q)?;
                let ghost gl = left;
                left = Expression::Comparison(op, Box::new(left), Box::new(right));
                assert(comparator_of(toks@[p as int].kind) == Some(op) && derives(toks@, pos as int, p as int, gl, 5) && derives(toks@, p + 1, q2 as int, right, 4));
                p = q2;
            },
            None => {
                return Ok((left, p));
            },
        }
    }
}

#[verifier::spinoff_prover]
#[verifier::rlimit(100)]
fn sum(toks: &Vec<Token>, pos: usize) -> (r: PResult<Expression>)
    requires
        tokens_ok(toks@),
        pos < toks@.len(),
    ensures
        agrees(r, e_sum(kinds(toks@), pos as int)),
        r matches Ok((e, p)) ==> pos < p < toks@.len() && derives(toks@, pos as int, p as int, e, 4),
    decreases toks@.len() - pos, 4nat,
{
    let (mut left, mut p) = product(toks, pos)?;
    loop
        invariant
            e_sum(kinds(toks@), pos as int) == t_sum(kinds(toks@), p as int),
            tokens_ok(toks@),
            pos < p < toks@.len(),
            derives(toks@, pos as int, p as int, left, 4),
        decreases toks@.len() - p,
    {
        let k = peek(toks, p);
        if k == Tok::Plus || k == Tok::Dash {
            let q = expect(toks, p, k)?;
            let (right, q2) = product(toks, q)?;
            let ghost gl = left;
            left = if k == Tok::Plus {
                Expression::Add(Box::new(left), Box::new(right))
            } else {
                Expression::Sub(Box::new(left), Box::new(right))
            };
            assert(toks@[p as int].kind == k && derives(toks@, pos as int, p as int, gl, 4) && derives(toks@, p + 1, q2 as int, right, 3));
            p = q2;
        } else {
            return Ok((left, p));
        }
    }
}

#[verifier::spinoff_prover]
#[verifier::rlimit(100)]
fn product(toks: &Vec<Token>, pos: usize) -> (r: PResult<Expression>)
    requires
        tokens_ok(toks@),
        pos < toks@.len(),
    ensures
        agrees(r, e_prod(kinds(toks@), pos as int)),
        r matches Ok((e, p)) ==> pos < p < toks@.len() && derives(toks@, pos as int, p as int, e, 3),
    decreases toks@.len() - pos, 3nat,
{
    let (mut left, mut p) = call(toks, pos)?;
    loop
        invariant
            e_prod(kinds(toks@), pos as int) == t_prod(kinds(toks@), p as int),
            tokens_ok(toks@),
            pos < p < toks@.len(),
            derives(toks@, pos as int, p as int, left, 3),
        decreases toks@.len() - p,
    {
        let k = peek(toks, p);
        if k == Tok::Multiply || k == Tok::Divide {
            let q = expect(toks, p, k)?;
            let (right, q2) = call(toks, q)?;
            let ghost gl = left;
            left = if k == Tok::Multiply {
                Expression::Mul(Box::new(left), Box::new(right))
            } else {
                Expression::Div(Box::new(left), Box::new(right))
            };
            assert(toks@[p as int].kind == k && derives(toks@, pos as int, p as int, gl, 3) && derives(toks@, p + 1, q2 as int, right, 2));
            p = q2;
        } else {
            return Ok((left, p));
        }
    }
}

/// Expressions separated by commas, up to (not including) `close`.
#[verifier::spinoff_prover]
fn expression_list(toks: &Vec<Token>, pos: usize, close: Tok) -> (r: PResult<Vec<Expression>>)
    requires
        tokens_ok(toks@),
        pos < toks@.len(),
    ensures
        agrees(r, e_items(kinds(toks@), pos as int, close)),
        r matches Ok((v, p)) ==> advanced(toks@, pos as int, p as int) && items_derive(toks@, pos as int, p as int, v@),
    decreases toks@.len() - pos, 10nat,
{
    let mut items: Vec<Expression> = Vec::new();
    if peek(toks, pos) == close {
        return Ok((items, pos));
    }
    let (first, mut p) = expression(toks, pos)?;
    items.push(first);
    assert(items@[0] == first);
    while peek(toks, p) == Tok::Comma
        invariant
            e_items(kinds(toks@), pos as int, close) == t_items(kinds(toks@), p as int),
            tokens_ok(toks@),
            pos < p < toks@.len(),
            items@.len() >= 1,
            items_derive(toks@, pos as int, p as int, items@),
        decreases toks@.len() - p,
    {
        let q = expect(toks, p, Tok::Comma)?;
        let (e, q2) = expression(toks, q)?;
        let ghost before = items@;
        items.push(e);
        assert(items@.drop_last() == before);
        assert(toks@[p as int].kind == Tok::Comma && items_derive(toks@, pos as int, p as int, before) && derives(toks@, p + 1, q2 as int, e, 8));
        p = q2;
    }
    Ok((items, p))
}

proof fn lemma_attr_derives(toks: Seq<Token>, pos: int, p: int, ge: Expression, e: Expression)
    requires
        0 <= pos < p,
        p + 2 <= toks.len(),
        derives(toks, pos, p, ge, 2),
        toks[p].kind == Tok::Dot,
        toks[p + 1].kind == Tok::Ident,
        e matches Expression::Attr(x, n) && *x == ge && n@ == toks[p + 1].text@,
    ensures
        derives(toks, pos, p + 2, e, 2),
{
}

proof fn lemma_item_derives(toks: Seq<Token>, pos: int, p: int, q3: int, ge: Expression, gi: Expression, e: Expression)
    requires
        0 <= pos < p,
        p + 1 < q3 - 1,
        q3 <= toks.len(),
        derives(toks, pos, p, ge, 2),
        toks[p].kind == Tok::OpenBracket,
        toks[q3 - 1].kind == Tok::CloseBracket,
        derives(toks, p + 1, q3 - 1, gi, 8),
        e matches Expression::Item(x, i) && *x == ge && *i == gi,
    ensures
        derives(toks, pos, q3, e, 2),
{
    assert(toks[p].kind == Tok::OpenBracket && derives(toks, pos, p, ge, 2) && derives(toks, p + 1, q3 - 1, gi, 8));
}

proof fn lemma_call_derives(toks: Seq<Token>, pos: int, p: int, q3: int, ge: Expression, ga: Seq<Expression>, e: Expression)
    requires
        0 <= pos < p,
        p < q3 - 1,
        q3 <= toks.len(),
        derives(toks, pos, p, ge, 2),
        toks[p].kind == Tok::OpenParen,
        toks[q3 - 1].kind == Tok::CloseParen,
        items_derive(toks, p + 1, q3 - 1, ga),
        e matches Expression::Call(f, args) && *f == ge && args@ == ga,
    ensures
        derives(toks, pos, q3, e, 2),
{
    assert(toks[p].kind == Tok::OpenParen && derives(toks, pos, p, ge, 2) && items_derive(toks, p + 1, q3 - 1, ga));
}

#[verifier::spinoff_prover]
#[verifier::rlimit(100)]
fn call_step(toks: &Vec<Token>, pos: usize, p: usize, e: Expression) -> (r: PResult<Expression>)
    requires
        tokens_ok(toks@),
        pos < p < toks@.len(),
        derives(toks@, pos as int, p as int, e, 2),
        toks@[p as int].kind == Tok::Dot || toks@[p as int].kind == Tok::OpenBracket || toks@[p as int].kind == Tok::OpenParen,
    ensures
        r matches Ok((e2, q)) ==> p < q < toks@.len() && derives(toks@, pos as int, q as int, e2, 2)
            && t_call(kinds(toks@), p as int) == t_call(kinds(toks@), q as int),
        r is Err ==> t_call(kinds(toks@), p as int) is None,
    decreases toks@.len() - p, 11nat,
{
    let k = peek(toks, p);
    let ghost ge = e;
    let mut e = e;
    if k == Tok::Dot {
        let q = expect(toks, p, Tok::Dot)?;
        let q2 = expect(toks, q, Tok::Ident)?;
        e = Expression::Attr(Box::new(e), text_at(toks, q));
        proof {
            lemma_attr_derives(toks@, pos as int, p as int, ge, e);
        }
        Ok((e, q2))
    } else if k == Tok::OpenBracket {
        let q = expect(toks, p, Tok::OpenBracket)?;
        let (i, q2) = expression(toks, q)?;
        let q3 = expect(toks, q2, Tok::CloseBracket)?;
        let ghost gi = i;
        e = Expression::Item(Box::new(e), Box::new(i));
        proof {
            lemma_item_derives(toks@, pos as int, p as int, q3 as int, ge, gi, e);
        }
        Ok((e, q3))
    } else if k == Tok::OpenParen {
        let q = expect(toks, p, Tok::OpenParen)?;
        let (args, q2) = expression_list(toks, q, Tok::CloseParen)?;
        let q3 = expect(toks, q2, Tok::CloseParen)?;
        let ghost ga = args@;
        e = Expression::Call(Box::new(e), args);
        proof {
            lemma_call_derives(toks@, pos as int, p as int, q3 as int, ge, ga, e);
        }
        Ok((e, q3))
    } else {
        Err(error_at(toks, p, Vec::new()))
    }
}

/// An atom followed by attribute accesses, item accesses and calls.
#[verifier::spinoff_prover]
#[verifier::rlimit(100)]
pub fn call(toks: &Vec<Token>, pos: usize) -> (r: PResult<Expression>)
    requires
        tokens_ok(toks@),
        pos < toks@.len(),
    ensures
        agrees(r, e_call(kinds(toks@), pos as int)),
        r matches Ok((e, p)) ==> pos < p < toks@.len() && derives(toks@, pos as int, p as int, e, 2),
    decreases toks@.len() - pos, 2nat,
{
    let (mut e, mut p) = atom(toks, pos)?;
    loop
        invariant
            e_call(kinds(toks@), pos as int) == t_call(kinds(toks@), p as int),
            tokens_ok(toks@),
            pos < p < toks@.len(),
            derives(toks@, pos as int, p as int, e, 2),
        decreases toks@.len() - p,
    {
        let k = peek(toks, p);
        if k == Tok::Dot || k == Tok::OpenBracket || k == Tok::OpenParen {
            let (e2, q) = call_step(toks, pos, p, e)?;
            e = e2;
            p = q;
        } else {
            return Ok((e, p));
        }
    }
}

#[verifier::spinoff_prover]
fn dict_entry(toks: &Vec<Token>, pos: usize) -> (r: PResult<(String, Expression)>)
    requires
        tokens_ok(toks@),
        pos < toks@.len(),
    ensures
        agrees(r, e_entry(kinds(toks@), pos as int)),
        r matches Ok((v, p)) ==> pos < p < toks@.len() && entry_derives(toks@, pos as int, p as int, v),
    decreases toks@.len() - pos, 0nat,
{
    let k = peek(toks, pos);
    let name = if k == Tok::String {
        string_at(toks, pos)
    } else if k == Tok::Ident {
        text_at(toks, pos)
    } else {
        let mut ex: Vec<Tok> = Vec::new();
        ex.push(Tok::String);
        ex.push(Tok::Ident);
        return Err(error_at(toks, pos, ex));
    };
    let q = expect(toks, pos, k)?;
    let q2 = expect(toks, q, Tok::Colon)?;
    let (v, q3) = expression(toks, q2)?;
    Ok(((name, v), q3))
}

#[verifier::spinoff_prover]
#[verifier::rlimit(100)]
fn dict(toks: &Vec<Token>, pos: usize) -> (r: PResult<Expression>)
    requires
        tokens_ok(toks@),
        pos < toks@.len(),
    ensures
        agrees(r, e_dict(kinds(toks@), pos as int)),
        r matches Ok((e, p)) ==> pos < p < toks@.len() && e is Dict && derives(toks@, pos as int, p as int, e, 1),
    decreases toks@.len() - pos, 0nat,
{
    let p0 = expect(toks, pos, Tok::OpenBrace)?;
    let mut items: Vec<(String, Expression)> = Vec::new();
    let mut p = p0;
    if peek(toks, p) != Tok::CloseBrace {
        let (first, q) = dict_entry(toks, p)?;
        items.push(first);
        assert(items@[0] == first);
        p = q;
        while peek(toks, p) == Tok::Comma
            invariant
                e_dict(kinds(toks@), pos as int) == t_entries(kinds(toks@), p as int),
                tokens_ok(toks@),
                pos < p0 < p < toks@.len(),
                items@.len() >= 1,
                entries_derive(toks@, p0 as int, p as int, items@),
            decreases toks@.len() - p,
        {
            let q = expect(toks, p, Tok::Comma)?;
            let (en, q2) = dict_entry(toks, q)?;
            let ghost before = items@;
            items.push(en);
            assert(items@.drop_last() == before);
            assert(toks@[p as int].kind == Tok::Comma && entries_derive(toks@, p0 as int, p as int, before) && entry_derives(toks@, p + 1, q2 as int, en));
            p = q2;
        }
    }
    let q = expect(toks, p, Tok::CloseBrace)?;
    let ghost gi = items@;
    let e = Expression::Dict(items);
    assert(toks@[q - 1].kind == Tok::CloseBrace);
    assert(entries_derive(toks@, pos + 1, q - 1, gi));
    Ok((e, q))
}

proof fn lemma_list_derives(toks: Seq<Token>, pos: int, q2: int, e: Expression, gi: Seq<Expression>)
    requires
        0 <= pos,
        pos + 1 < q2 <= toks.len(),
        toks[pos].kind == Tok::OpenBracket,
        toks[q2 - 1].kind == Tok::CloseBracket,
        items_derive(toks, pos + 1, q2 - 1, gi),
        e matches Expression::List(v) && v@ == gi,
    ensures
        derives(toks, pos, q2, e, 1),
{
}

#[verifier::spinoff_prover]
#[verifier::rlimit(100)]
fn list(toks: &Vec<Token>, pos: usize) -> (r: PResult<Expression>)
    requires
        tokens_ok(toks@),
        pos < toks@.len(),
    ensures
        agrees(r, e_list(kinds(toks@), pos as int)),
        r matches Ok((e, p)) ==> pos < p < toks@.len() && e is List && derives(toks@, pos as int, p as int, e, 1),
    decreases toks@.len() - pos, 0nat,
{
    let p = expect(toks, pos, Tok::OpenBracket)?;
    let (items, q) = expression_list(toks, p, Tok::CloseBracket)?;
    let q2 = expect(toks, q, Tok::CloseBracket)?;
    let ghost gi = items@;
    let e = Expression::List(items);
    proof {
        lemma_list_derives(toks@, pos as int, q2 as int, e, gi);
    }
    Ok((e, q2))
}

/// A name, `new` expression, string, number, dictionary, list, or
/// parenthesised expression.
#[verifier::spinoff_prover]
#[verifier::rlimit(80)]
pub fn atom(toks: &Vec<Token>, pos: usize) -> (r: PResult<Expression>)
    requires
        tokens_ok(toks@),
        pos < toks@.len(),
    ensures
        agrees(r, e_atom(kinds(toks@), pos as int)),
        r matches Ok((e, p)) ==> pos < p < toks@.len() && derives(toks@, pos as int, p as int, e, 1),
        r is Err <== !starts_atom(toks@[pos as int].kind),
        toks@[pos as int].kind == Tok::Ident ==> (r matches Ok((e, p)) && p == pos + 1 && (e matches Expression::Name(n) && n@ == toks@[pos as int].text@)),
        toks@[pos as int].kind == Tok::Number ==> (r matches Ok((e, p)) && p == pos + 1 && (e matches Expression::Num(n) && n@ == toks@[pos as int].text@)),
        toks@[pos as int].kind == Tok::String ==> (r matches Ok((e, p)) && p == pos + 1 && (e matches Expression::Str(v) && v@ == crate::token::unescape_spec(
            toks@[pos as int].text@.subrange(1, toks@[pos as int].text@.len() as int),
            toks@[pos as int].text@[0],
        ))),
        toks@[pos as int].kind == Tok::New ==> (r matches Ok((e, _)) ==> e is New),
        toks@[pos as int].kind == Tok::OpenBrace ==> (r matches Ok((e, _)) ==> e is Dict),
        toks@[pos as int].kind == Tok::OpenBracket ==> (r matches Ok((e, _)) ==> e is List),
    decreases toks@.len() - pos, 1nat,
{
    let k = peek(toks, pos);
    if k == Tok::Ident {
        let p = expect(toks, pos, Tok::Ident)?;
        Ok((Expression::Name(text_at(toks, pos)), p))
    } else if k == Tok::New {
        let p = expect(toks, pos, Tok::New)?;
        let (e, q) = expression(toks, p)?;
        Ok((Expression::New(Box::new(e)), q))
    } else if k == Tok::String {
        let p = expect(toks, pos, Tok::String)?;
        Ok((Expression::Str(string_at(toks, pos)), p))
    } else if k == Tok::Number {
        let p = expect(toks, pos, Tok::Number)?;
        Ok((Expression::Num(text_at(toks, pos)), p))
    } else if k == Tok::OpenBrace {
        dict(toks, pos)
    } else if k == Tok::OpenBracket {
        list(toks, pos)
    } else if k == Tok::OpenParen {
        let p = expect(toks, pos, Tok::OpenParen)?;
        let (e, q) = expression(toks, p)?;
        let q2 = expect(toks, q, Tok::CloseParen)?;
        assert(toks@[q2 - 1].kind == Tok::CloseParen);
        Ok((e, q2))
    } else {
        Err(error_at(toks, pos, atom_starts()))
    }
}

/// Whether `text` is the source of the expression `x`: the tokens of
/// `text` from their first one up to where the expression parser stops
/// spell `x`.
pub open spec fn expr_of_text(text: Seq<char>, x: Expression) -> bool {
    exists|toks: Seq<Token>, p: int|
        crate::tokenizer::lex_all(crate::tokenizer::start_state(text)) == Ok::<
            Seq<crate::tokenizer::TokModel>,
            crate::tokenizer::LexError,
        >(crate::tokenizer::models(toks)) && e_or(kinds(toks), 0) == Some(p) && #[trigger] derives(toks, 0, p, x, 8)
}

/// A piece of an interpolated string, as indices into its text: raw text
/// `v[s..e]`, or an interpolation `v[s..e]` whose expression text is
/// `v[s + 1..stop]`.
pub enum Piece {
    RawAt(int, int),
    InterpAt(int, int, int),
}

/// The first `{` at or after `i` that opens an interpolation: a doubled
/// `{{` is passed over, and a `{` at the very end opens nothing. The
/// length of `v` when there is none.
pub open spec fn first_open(v: Seq<char>, i: int) -> int
    decreases v.len() - i,
{
    if i < 0 || i >= v.len() {
        v.len() as int
    } else if v[i] == '{' && i + 1 < v.len() {
        if v[i + 1] == '{' {
            first_open(v, i + 2)
        } else {
            i
        }
    } else {
        first_open(v, i + 1)
    }
}

/// The first index at or after `i` holding `c`, or the length of `v`.
pub open spec fn first_of(v: Seq<char>, i: int, c: char) -> int
    decreases v.len() - i,
{
    if i < 0 || i >= v.len() {
        v.len() as int
    } else if v[i] == c {
        i
    } else {
        first_of(v, i + 1, c)
    }
}

/// The pieces of `v` from `cur` on: text up to the next interpolation is
/// raw; an interpolation runs to the next `}` and its expression text ends
/// at the first `:` inside it; when that text parses, the interpolation is
/// a piece and splitting goes on after it, otherwise everything from the
/// interpolation on is one raw piece; without a closing `}` the rest is
/// raw.
pub open spec fn fmt_pieces(v: Seq<char>, cur: int) -> Seq<Piece>
    decreases v.len() - cur,
{
    let n = v.len() as int;
    let tail = if 0 <= cur < n { seq![Piece::RawAt(cur, n)] } else { Seq::empty() };
    if cur < 0 || cur > n {
        Seq::empty()
    } else {
        let st = first_open(v, cur);
        if !(cur <= st < n) {
            tail
        } else {
            let en = first_of(v, st + 1, '}');
            if !(st < en < n) {
                tail
            } else {
                let pre = if st > cur { seq![Piece::RawAt(cur, st)] } else { Seq::empty() };
                let fc = first_of(v, st + 1, ':');
                let stop = if fc < en { fc } else { en };
                if crate::expr_parses(v.subrange(st + 1, stop)) {
                    pre + seq![Piece::InterpAt(st, en + 1, stop)] + fmt_pieces(v, en + 1)
                } else {
                    pre + seq![Piece::RawAt(st, n)]
                }
            }
        }
    }
}

/// Whether `f` is the piece `pc` of `v`.
pub open spec fn piece_ok(v: Seq<char>, f: Fmt, pc: Piece) -> bool {
    match pc {
        Piece::RawAt(s, e) => f matches Fmt::Raw(t) && t@ == v.subrange(s, e),
        Piece::InterpAt(s, e, stop) => f matches Fmt::Str(x) && expr_of_text(v.subrange(s + 1, stop), x),
    }
}

/// Whether `fs` are the pieces `ps` of `v`, one for one.
pub open spec fn pieces_ok(v: Seq<char>, fs: Seq<Fmt>, ps: Seq<Piece>) -> bool {
    &&& fs.len() == ps.len()
    &&& forall|i: int| 0 <= i < fs.len() ==> piece_ok(v, #[trigger] fs[i], ps[i])
}

/// Splits the value of a string literal into raw text and `{expression}`
/// interpolations. A doubled `{{` opens none; an interpolation without its
/// closing `}`, or whose expression does not parse, leaves the rest of the
/// text raw.
pub fn parse_format_string(value: &String) -> (r: Vec<Fmt>)
    ensures
        pieces_ok(value@, r@, fmt_pieces(value@, 0)),
{
    let chars = chars_of(value.as_str());
    let ghost v = value@;
    let n = chars.len();
    let mut buf: Vec<Fmt> = Vec::new();
    let mut cur: usize = 0;
    let ghost mut done: Seq<Piece> = Seq::empty();
    loop
        invariant
            chars@ == value@,
            v == value@,
            n == chars@.len(),
            cur <= n,
            fmt_pieces(v, 0) == done + fmt_pieces(v, cur as int),
            pieces_ok(v, buf@, done),
        decreases n - cur,
    {
        let mut start = cur;
        let mut found = false;
        while start < n && !found
            invariant
                cur <= start <= n,
                n == chars@.len(),
                chars@ == v,
                found ==> start < n && start == first_open(v, cur as int),
                !found ==> first_open(v, start as int) == first_open(v, cur as int),
            decreases n - start + if found { 0int } else { 1int },
        {
            if chars[start] == '{' && start + 1 < n {
                if chars[start + 1] == '{' {
                    start = start + 2;
                } else {
                    found = true;
                }
            } else {
                start = start + 1;
            }
        }
        let mut end = start;
        let mut fmt = n;
        let mut closed = false;
        if found {
            end = start + 1;
            while end < n && !closed
                invariant
                    start < end <= n,
                    n == chars@.len(),
                    chars@ == v,
                    closed ==> end < n && end == first_of(v, start + 1, '}') && chars@[end as int] == '}',
                    !closed ==> first_of(v, end as int, '}') == first_of(v, start + 1, '}'),
                    fmt == n ==> first_of(v, end as int, ':') == first_of(v, start + 1, ':'),
                    fmt < n ==> start < fmt < end && fmt == first_of(v, start + 1, ':'),
                    fmt <= n,
                decreases n - end + if closed { 0int } else { 1int },
            {
                if chars[end] == '}' {
                    closed = true;
                } else {
                    if chars[end] == ':' && fmt == n {
                        fmt = end;
                    }
                    end = end + 1;
                }
            }
        }
        let ghost rest = fmt_pieces(v, cur as int);
        if !found || !closed {
            if cur < n {
                let t = string_from(&chars, cur, n);
                buf.push(Fmt::Raw(t));
            }
            proof {
                let tail = if cur < n { seq![Piece::RawAt(cur as int, n as int)] } else { Seq::<Piece>::empty() };
                assert(rest == tail);
                assert(fmt_pieces(v, 0) == done + tail);
                assert(pieces_ok(v, buf@, done + tail)) by {
                    assert forall|i: int| 0 <= i < buf@.len() implies piece_ok(v, #[trigger] buf@[i], (done + tail)[i]) by {
                        if i < done.len() {
                            assert((done + tail)[i] == done[i]);
                        }
                    }
                }
            }
            return buf;
        }
        let ghost pre = if start > cur { seq![Piece::RawAt(cur as int, start as int)] } else { Seq::<Piece>::empty() };
        let ghost b0 = buf@;
        if start > cur {
            let t = string_from(&chars, cur, start);
            buf.push(Fmt::Raw(t));
        }
        proof {
            if fmt == n {
                lemma_first_of_ge(v, end as int, ':');
                assert(v[end as int] == '}');
            }
        }
        let stop = if fmt < end { fmt } else { end };
        let text = string_from(&chars, start + 1, stop);
        assert(text@ == v.subrange(start + 1, stop as int));
        match crate::parse_html_expr(text.as_str()) {
            Ok(e) => {
                assert(expr_of_text(text@, e));
                buf.push(Fmt::Str(e));
                proof {
                    let pc = seq![Piece::InterpAt(start as int, end + 1, stop as int)];
                    assert(rest == pre + pc + fmt_pieces(v, end + 1));
                    let nd = done + pre + pc;
                    assert(fmt_pieces(v, 0) == nd + fmt_pieces(v, end + 1)) by {
                        assert(done + (pre + pc + fmt_pieces(v, end + 1)) =~= nd + fmt_pieces(v, end + 1));
                    }
                    assert forall|i: int| 0 <= i < buf@.len() implies piece_ok(v, #[trigger] buf@[i], nd[i]) by {
                        if i < done.len() {
                            assert(nd[i] == done[i]);
                            assert(buf@[i] == b0[i]);
                        }
                    }
                    done = nd;
                }
            },
            Err(_) => {
                let t = string_from(&chars, start, n);
                buf.push(Fmt::Raw(t));
                proof {
                    let pc = seq![Piece::RawAt(start as int, n as int)];
                    assert(rest == pre + pc);
                    let nd = done + pre + pc;
                    assert(fmt_pieces(v, 0) == nd) by {
                        assert(done + (pre + pc) =~= nd);
                    }
                    assert forall|i: int| 0 <= i < buf@.len() implies piece_ok(v, #[trigger] buf@[i], nd[i]) by {
                        if i < done.len() {
                            assert(nd[i] == done[i]);
                            assert(buf@[i] == b0[i]);
                        }
                    }
                }
                return buf;
            },
        }
        cur = end + 1;
    }
}

proof fn lemma_first_of_ge(v: Seq<char>, i: int, c: char)
    requires
        0 <= i <= v.len(),
    ensures
        first_of(v, i, c) >= i,
        i < v.len() && v[i] != c ==> first_of(v, i, c) > i,
    decreases v.len() - i,
{
    if i < v.len() && v[i] != c {
        lemma_first_of_ge(v, i + 1, c);
    }
}

/// A name made of words and numbers joined by dashes (possibly empty).
#[verifier::spinoff_prover]
pub fn dash_name(toks: &Vec<Token>, pos: usize) -> (r: PResult<String>)
    requires
        tokens_ok(toks@),
        pos < toks@.len(),
    ensures
        agrees(r, g_dash(kinds(toks@), pos as int)),
        r matches Ok((_, p)) ==> advanced(toks@, pos as int, p as int),
{
    let mut parts: Vec<String> = Vec::new();
    let k = peek(toks, pos);
    if k != Tok::Ident && k != Tok::Number {
        return Ok((String::new(), pos));
    }
    parts.push(text_at(toks, pos));
    let mut p = expect(toks, pos, k)?;
    while peek(toks, p) == Tok::Dash
        invariant
            g_dash(kinds(toks@), pos as int) == g_dash_t(kinds(toks@), p as int),
            tokens_ok(toks@),
            pos < p < toks@.len(),
        decreases toks@.len() - p,
    {
        let q = expect(toks, p, Tok::Dash)?;
        let k2 = peek(toks, q);
        if k2 != Tok::Ident && k2 != Tok::Number {
            let mut ex: Vec<Tok> = Vec::new();
            ex.push(Tok::Ident);
            ex.push(Tok::Number);
            return Err(error_at(toks, q, ex));
        }
        parts.push(text_at(toks, q));
        p = expect(toks, q, k2)?;
    }
    Ok((join(&parts, "-"), p))
}

/// One class of an element: `.name`, optionally `?(condition)`.
#[verifier::spinoff_prover]
#[verifier::rlimit(100)]
fn class_suffix(toks: &Vec<Token>, pos: usize) -> (r: PResult<(String, Option<Expression>)>)
    requires
        tokens_ok(toks@),
        pos < toks@.len(),
    ensures
        agrees(r, g_class(kinds(toks@), pos as int)),
        r matches Ok((_, p)) ==> pos < p < toks@.len(),
{
    let p = expect(toks, pos, Tok::Dot)?;
    let (name, q) = dash_name(toks, p)?;
    if peek(toks, q) == Tok::Question {
        let q1 = expect(toks, q, Tok::Question)?;
        let q2 = expect(toks, q1, Tok::OpenParen)?;
        let (e, q3) = expression(toks, q2)?;
        let q4 = expect(toks, q3, Tok::CloseParen)?;
        Ok(((name, Some(e)), q4))
    } else {
        Ok(((name, None), q))
    }
}

/// The head of an element: a tag name and classes, or classes alone for a
/// `div`.
#[verifier::spinoff_prover]
pub fn element_start(toks: &Vec<Token>, pos: usize) -> (r: PResult<(String, Vec<(String, Option<Expression>)>)>)
    requires
        tokens_ok(toks@),
        pos < toks@.len(),
    ensures
        agrees(r, g_start(kinds(toks@), pos as int)),
        r matches Ok((v, p)) ==> pos < p < toks@.len() && (toks@[pos as int].kind == Tok::Ident ==> v.0@ == toks@[pos as int].text@) && (toks@[pos as int].kind != Tok::Ident ==> v.0@ == "div"@),
{
    let mut classes: Vec<(String, Option<Expression>)> = Vec::new();
    let k = peek(toks, pos);
    let (name, mut p) = if k == Tok::Ident {
        let p = expect(toks, pos, Tok::Ident)?;
        (text_at(toks, pos), p)
    } else {
        let (c, p) = class_suffix(toks, pos)?;
        classes.push(c);
        (crate::util::to_owned_string("div"), p)
    };
    while peek(toks, p) == Tok::Dot
        invariant
            g_start(kinds(toks@), pos as int) == g_classes(kinds(toks@), p as int),
            tokens_ok(toks@),
            pos < p < toks@.len(),
        decreases toks@.len() - p,
    {
        let (c, q) = class_suffix(toks, p)?;
        classes.push(c);
        p = q;
    }
    Ok(((name, classes), p))
}

/// The optional `[name=value, ...]` attributes of an element.
#[verifier::spinoff_prover]
pub fn attributes(toks: &Vec<Token>, pos: usize) -> (r: PResult<Vec<(String, Expression)>>)
    requires
        tokens_ok(toks@),
        pos < toks@.len(),
    ensures
        agrees(r, g_attrs(kinds(toks@), pos as int)),
        r matches Ok((_, p)) ==> advanced(toks@, pos as int, p as int),
        r matches Ok((v, p)) ==> toks@[pos as int].kind != Tok::OpenBracket ==> p == pos && v@.len() == 0,
{
    let mut attrs: Vec<(String, Expression)> = Vec::new();
    if peek(toks, pos) != Tok::OpenBracket {
        return Ok((attrs, pos));
    }
    let mut p = expect(toks, pos, Tok::OpenBracket)?;
    if peek(toks, p) != Tok::CloseBracket {
        let mut more = true;
        while more
            invariant
                more ==> g_attrs(kinds(toks@), pos as int) == g_attr_then(kinds(toks@), p as int),
                !more ==> g_attrs(kinds(toks@), pos as int) == closing(kinds(toks@), p as int, Tok::CloseBracket),
                tokens_ok(toks@),
                pos < p < toks@.len(),
            decreases toks@.len() - p + if more { 1int } else { 0int },
        {
            let (name, q) = dash_name(toks, p)?;
            let q1 = expect(toks, q, Tok::Equals)?;
            let (value, q2) = if peek(toks, q1) == Tok::String {
                let v = string_at(toks, q1);
                let q2 = expect(toks, q1, Tok::String)?;
                (Expression::Format(parse_format_string(&v)), q2)
            } else {
                expression(toks, q1)?
            };
            attrs.push((name, value));
            p = q2;
            if peek(toks, p) == Tok::Comma {
                p = expect(toks, p, Tok::Comma)?;
            } else {
                more = false;
            }
        }
    }
    let q = expect(toks, p, Tok::CloseBracket)?;
    Ok((attrs, q))
}


/// The token kinds that start a statement.
pub open spec fn starts_statement(k: Tok) -> bool {
    k == Tok::Ident || k == Tok::Dot || k == Tok::String || k == Tok::Store || k == Tok::Let
        || k == Tok::Link || k == Tok::If || k == Tok::For || k == Tok::Equals
}

fn starts_statement_exec(k: Tok) -> (r: bool)
    ensures
        r == starts_statement(k),
{
    k == Tok::Ident || k == Tok::Dot || k == Tok::String || k == Tok::Store || k == Tok::Let
        || k == Tok::Link || k == Tok::If || k == Tok::For || k == Tok::Equals
}

fn statement_starts() -> (r: Vec<Tok>)
    ensures
        forall|i: int| 0 <= i < r@.len() ==> starts_statement(#[trigger] r@[i]),
        r@.len() == 9,
{
    let mut v: Vec<Tok> = Vec::new();
    v.push(Tok::Ident);
    v.push(Tok::Dot);
    v.push(Tok::String);
    v.push(Tok::Store);
    v.push(Tok::Let);
    v.push(Tok::Link);
    v.push(Tok::If);
    v.push(Tok::For);
    v.push(Tok::Equals);
    v
}

/// The statement that each leading token introduces: an element for a
/// name or a dot, text for a string, and the keyword's own statement
/// otherwise; `store` and `let` bind the name that follows them.
pub open spec fn statement_kind_ok(toks: Seq<Token>, pos: int, p: int, st: Statement) -> bool {
    let k = toks[pos].kind;
    &&& (k == Tok::Ident || k == Tok::Dot) ==> st is Element
    &&& k == Tok::String ==> st is Format
    &&& k == Tok::Store ==> (st matches Statement::Store(n, e) && binding_derives(toks, pos, p, n@, e))
    &&& k == Tok::Let ==> (st matches Statement::Let(n, e) && binding_derives(toks, pos, p, n@, e))
    &&& k == Tok::Link ==> st is Link
    &&& k == Tok::If ==> st is Condition
    &&& k == Tok::For ==> st is ForOf
    &&& k == Tok::Equals ==> (st matches Statement::Output(e) && toks[p - 1].kind == Tok::Newline && derives(
        toks,
        pos + 1,
        p - 1,
        e,
        8,
    ))
}

/// `toks[a..b]` is a keyword, the name `n`, `=`, the expression `e`, and
/// the end of the line.
pub open spec fn binding_derives(toks: Seq<Token>, a: int, b: int, n: Seq<char>, e: Expression) -> bool {
    &&& toks[a + 1].kind == Tok::Ident
    &&& toks[a + 1].text@ == n
    &&& toks[a + 2].kind == Tok::Equals
    &&& toks[b - 1].kind == Tok::Newline
    &&& derives(toks, a + 3, b - 1, e, 8)
}

/// Whether `toks[a..b]` spells the statements `s` one after another, each
/// as `statement_kind_ok` describes it.
pub open spec fn stmts_derive(toks: Seq<Token>, a: int, b: int, s: Seq<Statement>) -> bool
    decreases s.len(),
{
    if s.len() == 0 {
        a == b
    } else {
        exists|m: int| #![trigger toks[m]]
            a <= m < b && stmts_derive(toks, a, m, s.drop_last()) && statement_kind_ok(toks, m, b, s.last())
    }
}

/// An optional indented block of one or more statements; `None` when the
/// next token is not an indentation.
#[verifier::spinoff_prover]
pub fn chunk(toks: &Vec<Token>, pos: usize) -> (r: PResult<Option<Vec<Statement>>>)
    requires
        tokens_ok(toks@),
        pos < toks@.len(),
    ensures
        agrees(r, g_chunk(kinds(toks@), pos as int)),
        r matches Ok((_, p)) ==> advanced(toks@, pos as int, p as int),
        r matches Ok((v, p)) ==> (v is None <==> toks@[pos as int].kind != Tok::Indent) && (v is None ==> p == pos)
            && (v matches Some(b) ==> b@.len() > 0 && toks@[p - 1].kind == Tok::Dedent && stmts_derive(
            toks@,
            pos + 1,
            p - 1,
            b@,
        )),
    decreases toks@.len() - pos, 3nat,
{
    if peek(toks, pos) != Tok::Indent {
        return Ok((None, pos));
    }
    let p0 = expect(toks, pos, Tok::Indent)?;
    let (first, mut p) = statement(toks, p0)?;
    let mut body: Vec<Statement> = Vec::new();
    body.push(first);
    assert(body@.drop_last().len() == 0);
    assert(stmts_derive(toks@, p0 as int, p0 as int, body@.drop_last()));
    while starts_statement_exec(peek(toks, p))
        invariant
            g_chunk(kinds(toks@), pos as int) == g_stmts_t(kinds(toks@), p as int),
            tokens_ok(toks@),
            pos < p0 < p < toks@.len(),
            p0 == pos + 1,
            body@.len() > 0,
            stmts_derive(toks@, p0 as int, p as int, body@),
        decreases toks@.len() - p,
    {
        let (st, q) = statement(toks, p)?;
        let ghost before = body@;
        body.push(st);
        assert(body@.drop_last() == before);
        p = q;
    }
    let q = expect(toks, p, Tok::Dedent)?;
    assert(toks@[q - 1].kind == Tok::Dedent);
    Ok((Some(body), q))
}

fn opt_body(c: Option<Vec<Statement>>) -> (r: Vec<Statement>)
    ensures
        c matches Some(b) ==> r@ == b@,
        c is None ==> r@.len() == 0,
{
    match c {
        Some(b) => b,
        None => Vec::new(),
    }
}

/// One statement of a markup block.
#[verifier::spinoff_prover]
#[verifier::rlimit(100)]
pub fn statement(toks: &Vec<Token>, pos: usize) -> (r: PResult<Statement>)
    requires
        tokens_ok(toks@),
        pos < toks@.len(),
    ensures
        agrees(r, g_stmt(kinds(toks@), pos as int)),
        r matches Ok((_, p)) ==> pos < p < toks@.len(),
        r is Err <== !starts_statement(toks@[pos as int].kind),
        r matches Ok((st, p)) ==> statement_kind_ok(toks@, pos as int, p as int, st),
    decreases toks@.len() - pos, 2nat,
{
    let k = peek(toks, pos);
    if k == Tok::Ident || k == Tok::Dot {
        element(toks, pos)
    } else if k == Tok::String {
        let v = string_at(toks, pos);
        let p = expect(toks, pos, Tok::String)?;
        let q = expect(toks, p, Tok::Newline)?;
        Ok((Statement::Format(parse_format_string(&v)), q))
    } else if k == Tok::Store || k == Tok::Let {
        let p = expect(toks, pos, k)?;
        let name = text_at(toks, p);
        let p1 = expect(toks, p, Tok::Ident)?;
        let p2 = expect(toks, p1, Tok::Equals)?;
        let (e, p3) = expression(toks, p2)?;
        let p4 = expect(toks, p3, Tok::Newline)?;
        assert(toks@[p4 - 1].kind == Tok::Newline);
        if k == Tok::Store {
            Ok((Statement::Store(name, e), p4))
        } else {
            Ok((Statement::Let(name, e), p4))
        }
    } else if k == Tok::Link {
        link(toks, pos)
    } else if k == Tok::If {
        condition(toks, pos)
    } else if k == Tok::For {
        iteration(toks, pos)
    } else if k == Tok::Equals {
        let p = expect(toks, pos, Tok::Equals)?;
        let (e, p1) = expression(toks, p)?;
        let p2 = expect(toks, p1, Tok::Newline)?;
        assert(toks@[p2 - 1].kind == Tok::Newline);
        Ok((Statement::Output(e), p2))
    } else {
        Err(error_at(toks, pos, statement_starts()))
    }
}

/// An element: its head, attributes, then a string on the same line or an
/// indented body.
#[verifier::spinoff_prover]
pub fn element(toks: &Vec<Token>, pos: usize) -> (r: PResult<Statement>)
    requires
        tokens_ok(toks@),
        pos < toks@.len(),
    ensures
        agrees(r, g_element(kinds(toks@), pos as int)),
        r matches Ok((_, p)) ==> pos < p < toks@.len(),
        r matches Ok((st, _)) ==> st is Element,
        r matches Ok((st, _)) ==> (st matches Statement::Element { name, .. } && if toks@[pos as int].kind == Tok::Ident {
            name@ == toks@[pos as int].text@
        } else {
            name@ == "div"@
        }),
        r matches Ok((st, p)) ==> (st matches Statement::Element { body, .. } && element_body_ok(toks@, p as int, body@)),
    decreases toks@.len() - pos, 1nat,
{
    let ((name, classes), p) = element_start(toks, pos)?;
    let (attributes, p1) = attributes(toks, p)?;
    if peek(toks, p1) == Tok::String {
        let v = string_at(toks, p1);
        let p2 = expect(toks, p1, Tok::String)?;
        let p3 = expect(toks, p2, Tok::Newline)?;
        let mut body: Vec<Statement> = Vec::new();
        body.push(Statement::Format(parse_format_string(&v)));
        assert(toks@[p3 - 1].kind == Tok::Newline && toks@[p3 - 2].kind == Tok::String);
        Ok((Statement::Element { name, classes, attributes, body }, p3))
    } else {
        let p2 = expect(toks, p1, Tok::Newline)?;
        let (c, p3) = chunk(toks, p2)?;
        let body = opt_body(c);
        proof {
            if body@.len() > 0 {
                assert(toks@[p2 as int].kind == Tok::Indent);
            }
        }
        Ok((Statement::Element { name, classes, attributes, body }, p3))
    }
}

/// The body of an element that ends before `p`: nothing, one line of text,
/// or the statements of an indented block.
pub open spec fn element_body_ok(toks: Seq<Token>, p: int, body: Seq<Statement>) -> bool {
    ||| body.len() == 0
    ||| (body.len() == 1 && body[0] is Format && toks[p - 1].kind == Tok::Newline && toks[p - 2].kind == Tok::String)
    ||| (toks[p - 1].kind == Tok::Dedent && exists|m: int| #![trigger toks[m]]
        0 <= m < p && toks[m].kind == Tok::Indent && stmts_derive(toks, m + 1, p - 1, body))
}

/// `if cond:` with its block, any `elif cond:` blocks, and an optional
/// `else:` block.
#[verifier::spinoff_prover]
#[verifier::rlimit(100)]
pub fn condition(toks: &Vec<Token>, pos: usize) -> (r: PResult<Statement>)
    requires
        tokens_ok(toks@),
        pos < toks@.len(),
    ensures
        agrees(r, g_cond(kinds(toks@), pos as int)),
        r matches Ok((_, p)) ==> pos < p < toks@.len(),
        r matches Ok((st, _)) ==> (st matches Statement::Condition(b, _) && b@.len() >= 1 && exists|m: int|
            #![trigger toks@[m]]
            pos + 1 < m && toks@[m].kind == Tok::Colon && derives(toks@, pos + 1, m, b@[0].0, 8)),
    decreases toks@.len() - pos, 1nat,
{
    let mut branches: Vec<(Expression, Vec<Statement>)> = Vec::new();
    let (first, mut p) = branch(toks, pos, Tok::If)?;
    assert(g_cond(kinds(toks@), pos as int) == g_elifs(kinds(toks@), p as int));
    let ghost c0 = first.0;
    branches.push(first);
    assert(branches@[0].0 == c0);
    while peek(toks, p) == Tok::Elif
        invariant
            g_cond(kinds(toks@), pos as int) == g_elifs(kinds(toks@), p as int),
            tokens_ok(toks@),
            pos < p < toks@.len(),
            branches@.len() >= 1,
            branches@[0].0 == c0,
        decreases toks@.len() - p,
    {
        let (b, q) = branch(toks, p, Tok::Elif)?;
        branches.push(b);
        p = q;
    }
    if peek(toks, p) == Tok::Else {
        let q = expect(toks, p, Tok::Else)?;
        let q1 = expect(toks, q, Tok::Colon)?;
        let q2 = expect(toks, q1, Tok::Newline)?;
        let (c, q3) = chunk(toks, q2)?;
        Ok((Statement::Condition(branches, c), q3))
    } else {
        Ok((Statement::Condition(branches, None), p))
    }
}

/// `if cond:` or `elif cond:` with its block.
#[verifier::spinoff_prover]
fn branch(toks: &Vec<Token>, pos: usize, kw: Tok) -> (r: PResult<(Expression, Vec<Statement>)>)
    requires
        tokens_ok(toks@),
        pos < toks@.len(),
        kw == Tok::If || kw == Tok::Elif,
    ensures
        agrees(r, g_branch(kinds(toks@), pos as int, kw)),
        r matches Ok((_, p)) ==> pos < p < toks@.len(),
        r matches Ok((b, _)) ==> exists|m: int| #![trigger toks@[m]]
            pos + 1 < m && toks@[m].kind == Tok::Colon && derives(toks@, pos + 1, m, b.0, 8),
    decreases toks@.len() - pos, 0nat,
{
    let q = expect(toks, pos, kw)?;
    let (cond, q1) = expression(toks, q)?;
    assert(toks@[q1 as int].kind == Tok::Colon ==> derives(toks@, pos + 1, q1 as int, cond, 8));
    let q2 = expect(toks, q1, Tok::Colon)?;
    let q3 = expect(toks, q2, Tok::Newline)?;
    let (c, q4) = chunk(toks, q3)?;
    Ok(((cond, opt_body(c)), q4))
}

/// `for name of expr:` with its block.
#[verifier::spinoff_prover]
#[verifier::rlimit(100)]
pub fn iteration(toks: &Vec<Token>, pos: usize) -> (r: PResult<Statement>)
    requires
        tokens_ok(toks@),
        pos < toks@.len(),
    ensures
        agrees(r, g_iter(kinds(toks@), pos as int)),
        r matches Ok((_, p)) ==> pos < p < toks@.len(),
        r matches Ok((st, _)) ==> (st matches Statement::ForOf(name, e, _) && toks@[pos + 1].kind == Tok::Ident
            && name@ == toks@[pos + 1].text@ && toks@[pos + 2].kind == Tok::Of && exists|m: int| #![trigger toks@[m]]
            pos + 3 < m && toks@[m].kind == Tok::Colon && derives(toks@, pos + 3, m, e, 8)),
    decreases toks@.len() - pos, 1nat,
{
    let p = expect(toks, pos, Tok::For)?;
    let name = text_at(toks, p);
    let p1 = expect(toks, p, Tok::Ident)?;
    let p2 = expect(toks, p1, Tok::Of)?;
    let (e, p3) = expression(toks, p2)?;
    let p4 = expect(toks, p3, Tok::Colon)?;
    assert(toks@[p3 as int].kind == Tok::Colon && derives(toks@, pos + 3, p3 as int, e, 8));
    let p5 = expect(toks, p4, Tok::Newline)?;
    let (c, p6) = chunk(toks, p5)?;
    Ok((Statement::ForOf(name, e, opt_body(c)), p6))
}

/// Whether `toks[a..b]` spells the link destination `d`: an expression for
/// a stream, or `value -> stream`.
pub open spec fn dest_derives(toks: Seq<Token>, a: int, b: int, d: LinkDest) -> bool {
    match d {
        LinkDest::Stream(x) => derives(toks, a, b, x, 8),
        LinkDest::Mapping(v, x) => exists|m: int| #![trigger toks[m]]
            a < m < b && toks[m].kind == Tok::ArrowRight && derives(toks, a, m, v, 8) && derives(toks, m + 1, b, x, 8),
    }
}

/// The destination of a link: a stream, or `value -> stream`.
#[verifier::spinoff_prover]
pub fn link_dest(toks: &Vec<Token>, pos: usize) -> (r: PResult<LinkDest>)
    requires
        tokens_ok(toks@),
        pos < toks@.len(),
    ensures
        agrees(r, g_dest(kinds(toks@), pos as int)),
        r matches Ok((_, p)) ==> pos < p < toks@.len(),
        r matches Ok((d, p)) ==> dest_derives(toks@, pos as int, p as int, d),
{
    let (x, p) = expression(toks, pos)?;
    if peek(toks, p) == Tok::ArrowRight {
        let q = expect(toks, p, Tok::ArrowRight)?;
        let (dest, q1) = expression(toks, q)?;
        assert(toks@[p as int].kind == Tok::ArrowRight && derives(toks@, pos as int, p as int, x, 8) && derives(toks@, p + 1, q1 as int, dest, 8));
        Ok((LinkDest::Mapping(x, dest), q1))
    } else {
        Ok((LinkDest::Stream(x), p))
    }
}

#[verifier::spinoff_prover]
fn optional_filter(toks: &Vec<Token>, pos: usize) -> (r: PResult<Option<Expression>>)
    requires
        tokens_ok(toks@),
        pos < toks@.len(),
    ensures
        agrees(r, g_filter(kinds(toks@), pos as int)),
        r matches Ok((_, p)) ==> advanced(toks@, pos as int, p as int),
        r matches Ok((f, p)) ==> (f is None <==> p == pos) && (f is None <==> toks@[pos as int].kind != Tok::OpenBracket),
{
    if peek(toks, pos) == Tok::OpenBracket {
        let p = expect(toks, pos, Tok::OpenBracket)?;
        let (e, p1) = expression(toks, p)?;
        let p2 = expect(toks, p1, Tok::CloseBracket)?;
        Ok((Some(e), p2))
    } else {
        Ok((None, pos))
    }
}

/// `{attr[: event][[filter]], ...} = destination`.
#[verifier::spinoff_prover]
#[verifier::rlimit(100)]
pub fn multi_link(toks: &Vec<Token>, pos: usize) -> (r: PResult<Link>)
    requires
        tokens_ok(toks@),
        pos < toks@.len(),
    ensures
        agrees(r, g_multi(kinds(toks@), pos as int)),
        r matches Ok((_, p)) ==> pos < p < toks@.len(),
{
    let mut p = expect(toks, pos, Tok::OpenBrace)?;
    let mut names: Vec<(String, Option<Expression>, Option<String>)> = Vec::new();
    if peek(toks, p) == Tok::Ident {
        let mut more = true;
        while more
            invariant
                more ==> g_multi(kinds(toks@), pos as int) == g_mname_then(kinds(toks@), p as int),
                !more ==> g_multi(kinds(toks@), pos as int) == g_mclose(kinds(toks@), p as int),
                tokens_ok(toks@),
                pos < p < toks@.len(),
            decreases toks@.len() - p + if more { 1int } else { 0int },
        {
            let name = text_at(toks, p);
            let q = expect(toks, p, Tok::Ident)?;
            let (alias, q1) = if peek(toks, q) == Tok::Colon {
                let q1 = expect(toks, q, Tok::Colon)?;
                let a = text_at(toks, q1);
                let q2 = expect(toks, q1, Tok::Ident)?;
                (Some(a), q2)
            } else {
                (None, q)
            };
            let (filt, q2) = optional_filter(toks, q1)?;
            names.push((name, filt, alias));
            p = q2;
            if peek(toks, p) == Tok::Comma {
                p = expect(toks, p, Tok::Comma)?;
            } else {
                more = false;
            }
        }
    }
    let q = expect(toks, p, Tok::CloseBrace)?;
    let q1 = expect(toks, q, Tok::Equals)?;
    let (dest, q2) = link_dest(toks, q1)?;
    Ok((Link::Multi(names, dest), q2))
}

/// `event[[filter]] = destination`.
#[verifier::spinoff_prover]
pub fn single_link(toks: &Vec<Token>, pos: usize) -> (r: PResult<Link>)
    requires
        tokens_ok(toks@),
        pos < toks@.len(),
    ensures
        agrees(r, g_single(kinds(toks@), pos as int)),
        r matches Ok((_, p)) ==> pos < p < toks@.len(),
        r matches Ok((l, p)) ==> (l matches Link::One(ev, f, d) && ev@ == toks@[pos as int].text@ && toks@[pos as int].kind
            == Tok::Ident && (f is None ==> toks@[pos + 1].kind == Tok::Equals && dest_derives(toks@, pos + 2, p as int, d))),
{
    let name = text_at(toks, pos);
    let p = expect(toks, pos, Tok::Ident)?;
    let (filt, p1) = optional_filter(toks, p)?;
    assert(filt is None ==> p1 == p);
    let p2 = expect(toks, p1, Tok::Equals)?;
    let (dest, p3) = link_dest(toks, p2)?;
    Ok((Link::One(name, filt, dest), p3))
}

/// `link` with its bindings separated by commas.
#[verifier::spinoff_prover]
pub fn link(toks: &Vec<Token>, pos: usize) -> (r: PResult<Statement>)
    requires
        tokens_ok(toks@),
        pos < toks@.len(),
    ensures
        agrees(r, g_link(kinds(toks@), pos as int)),
        r matches Ok((_, p)) ==> pos < p < toks@.len(),
        r matches Ok((st, _)) ==> st is Link,
{
    let mut p = expect(toks, pos, Tok::Link)?;
    let mut links: Vec<Link> = Vec::new();
    let k = peek(toks, p);
    if k == Tok::Ident || k == Tok::OpenBrace {
        let mut more = true;
        while more
            invariant
                more ==> g_link(kinds(toks@), pos as int) == g_one_then(kinds(toks@), p as int),
                !more ==> g_link(kinds(toks@), pos as int) == closing(kinds(toks@), p as int, Tok::Newline),
                tokens_ok(toks@),
                pos < p < toks@.len(),
            decreases toks@.len() - p + if more { 1int } else { 0int },
        {
            let (l, q) = if peek(toks, p) == Tok::OpenBrace {
                multi_link(toks, p)?
            } else {
                single_link(toks, p)?
            };
            links.push(l);
            p = q;
            if peek(toks, p) == Tok::Comma {
                p = expect(toks, p, Tok::Comma)?;
            } else {
                more = false;
            }
        }
    }
    let q = expect(toks, p, Tok::Newline)?;
    Ok((Statement::Link(links), q))
}

/// A formal parameter: a name with an optional string default.
#[verifier::spinoff_prover]
pub fn param(toks: &Vec<Token>, pos: usize) -> (r: PResult<Param>)
    requires
        tokens_ok(toks@),
        pos < toks@.len(),
    ensures
        agrees(r, g_param(kinds(toks@), pos as int)),
        r matches Ok((_, p)) ==> pos < p < toks@.len(),
        r matches Ok((v, _)) ==> v.name@ == toks@[pos as int].text@,
{
    let name = text_at(toks, pos);
    let p = expect(toks, pos, Tok::Ident)?;
    if peek(toks, p) == Tok::Equals {
        let q = expect(toks, p, Tok::Equals)?;
        let v = if peek(toks, q) == Tok::String {
            string_at(toks, q)
        } else {
            String::new()
        };
        let q1 = expect(toks, q, Tok::String)?;
        Ok((Param { name, default_value: Some(v) }, q1))
    } else {
        Ok((Param { name, default_value: None }, p))
    }
}

/// An optional parenthesised parameter list.
#[verifier::spinoff_prover]
pub fn params(toks: &Vec<Token>, pos: usize) -> (r: PResult<Option<Vec<Param>>>)
    requires
        tokens_ok(toks@),
        pos < toks@.len(),
    ensures
        agrees(r, g_params(kinds(toks@), pos as int)),
        r matches Ok((_, p)) ==> advanced(toks@, pos as int, p as int),
{
    if peek(toks, pos) != Tok::OpenParen {
        return Ok((None, pos));
    }
    let mut p = expect(toks, pos, Tok::OpenParen)?;
    let mut ps: Vec<Param> = Vec::new();
    if peek(toks, p) == Tok::Ident {
        let mut more = true;
        while more
            invariant
                more ==> g_params(kinds(toks@), pos as int) == g_param_then(kinds(toks@), p as int),
                !more ==> g_params(kinds(toks@), pos as int) == closing(kinds(toks@), p as int, Tok::CloseParen),
                tokens_ok(toks@),
                pos < p < toks@.len(),
            decreases toks@.len() - p + if more { 1int } else { 0int },
        {
            let (v, q) = param(toks, p)?;
            ps.push(v);
            p = q;
            if peek(toks, p) == Tok::Comma {
                p = expect(toks, p, Tok::Comma)?;
            } else {
                more = false;
            }
        }
    }
    let q = expect(toks, p, Tok::CloseParen)?;
    Ok((Some(ps), q))
}

/// The optional `events a, b` list of a markup block.
#[verifier::spinoff_prover]
pub fn events(toks: &Vec<Token>, pos: usize) -> (r: PResult<Option<Vec<String>>>)
    requires
        tokens_ok(toks@),
        pos < toks@.len(),
    ensures
        agrees(r, g_events(kinds(toks@), pos as int)),
        r matches Ok((_, p)) ==> advanced(toks@, pos as int, p as int),
{
    if peek(toks, pos) != Tok::Events {
        return Ok((None, pos));
    }
    let mut p = expect(toks, pos, Tok::Events)?;
    let mut names: Vec<String> = Vec::new();
    if peek(toks, p) == Tok::Ident {
        let mut more = true;
        while more
            invariant
                more ==> g_events(kinds(toks@), pos as int) == (if tk(kinds(toks@), p as int, Tok::Ident) { g_events_t(kinds(toks@), p + 1) } else { None }),
                !more ==> g_events(kinds(toks@), pos as int) == Some(p as int),
                tokens_ok(toks@),
                pos < p < toks@.len(),
            decreases toks@.len() - p + if more { 1int } else { 0int },
        {
            names.push(text_at(toks, p));
            p = expect(toks, p, Tok::Ident)?;
            if peek(toks, p) == Tok::Comma {
                p = expect(toks, p, Tok::Comma)?;
            } else {
                more = false;
            }
        }
    }
    Ok((Some(names), p))
}

/// A markup block after its keyword: name, parameters, events, and body.
#[verifier::spinoff_prover]
pub fn block(toks: &Vec<Token>, pos: usize) -> (r: PResult<crate::ast::Block>)
    requires
        tokens_ok(toks@),
        pos < toks@.len(),
    ensures
        agrees(r, g_hblock(kinds(toks@), pos as int)),
        r matches Ok((_, p)) ==> pos < p < toks@.len(),
        r matches Ok((b, _)) ==> (b matches crate::ast::Block::Html { name, .. } && name@ == toks@[pos as int].text@),
{
    let name = text_at(toks, pos);
    let p = expect(toks, pos, Tok::Ident)?;
    let (ps, p1) = params(toks, p)?;
    let (evs, p2) = events(toks, p1)?;
    let p3 = expect(toks, p2, Tok::Colon)?;
    let p4 = expect(toks, p3, Tok::Newline)?;
    let (c, p5) = chunk(toks, p4)?;
    let params = match ps {
        Some(v) => v,
        None => Vec::new(),
    };
    let events = match evs {
        Some(v) => v,
        None => Vec::new(),
    };
    Ok((crate::ast::Block::Html { name, params, events, statements: opt_body(c) }, p5))
}

} // verus!
