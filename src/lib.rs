//! Compiler for an indentation-based template language: style blocks become
//! CSS text, markup blocks become virtual-DOM render functions in JavaScript.

pub mod util;
pub mod token;
pub mod tokenizer;
pub mod css_ast;
pub mod html_ast;
pub mod ast;
pub mod js_ast;
pub mod emit;
pub mod lower;
pub mod grammar;
pub mod html_grammar;
pub mod css_grammar;
pub mod visitors;
pub mod css;
pub mod amd;
pub mod js;


use vstd::prelude::*;

verus! {

/// Why a source text could not be parsed.
#[derive(Debug)]
pub enum Error {
    Lex(tokenizer::LexError),
    Syntax(grammar::ParseError),
}

/// A position written as `line:column`.
pub open spec fn position_text(p: token::Position) -> Seq<char> {
    util::decimal(p.line as nat) + seq![':'] + util::decimal(p.column as nat)
}

/// The names of token kinds, separated by `or`.
pub open spec fn kinds_text(ks: Seq<token::TokenType>) -> Seq<char> {
    util::join_spec(ks.map_values(|k: token::TokenType| token::spec_info(k)), " or "@)
}

/// The message of an error.
pub open spec fn message_spec(e: Error) -> Seq<char> {
    match e {
        Error::Lex(l) => match l.kind {
            tokenizer::LexErrorKind::UnmatchedBracket => "unmatched closing bracket at "@ + position_text(l.position),
            tokenizer::LexErrorKind::WrongIndentation => "wrong indentation level at "@ + position_text(l.position),
            tokenizer::LexErrorKind::UnexpectedCharacter(c) => "unexpected character "@ + seq![c] + " at "@
                + position_text(l.position),
        },
        Error::Syntax(p) => "expected "@ + kinds_text(p.expected@) + ", found "@ + token::spec_info(p.found) + " at "@
            + position_text(p.position),
    }
}

fn write_position(buf: &mut String, p: token::Position)
    ensures
        final(buf)@ == old(buf)@ + position_text(p),
{
    let line = util::decimal_string(p.line);
    buf.append(line.as_str());
    util::push_char(buf, ':');
    let column = util::decimal_string(p.column);
    buf.append(column.as_str());
    assert(final(buf)@ =~= old(buf)@ + position_text(p));
}

impl Error {
    /// A human-readable description of the error and where it was found.
    pub fn message(&self) -> (r: String)
        ensures
            r@ == message_spec(*self),
    {
        let mut buf = String::new();
        match self {
            Error::Lex(l) => {
                match l.kind {
                    tokenizer::LexErrorKind::UnmatchedBracket => {
                        buf.append("unmatched closing bracket at ");
                    },
                    tokenizer::LexErrorKind::WrongIndentation => {
                        buf.append("wrong indentation level at ");
                    },
                    tokenizer::LexErrorKind::UnexpectedCharacter(c) => {
                        buf.append("unexpected character ");
                        util::push_char(&mut buf, c);
                        buf.append(" at ");
                    },
                }
                write_position(&mut buf, l.position);
            },
            Error::Syntax(p) => {
                buf.append("expected ");
                let mut names: Vec<String> = Vec::new();
                let mut i: usize = 0;
                while i < p.expected.len()
                    invariant
                        i <= p.expected@.len(),
                        names@.len() == i,
                        forall|k: int| 0 <= k < i ==> (#[trigger] names@[k])@ == token::spec_info(p.expected@[k]),
                    decreases p.expected.len() - i,
                {
                    names.push(util::to_owned_string(p.expected[i].info()));
                    i += 1;
                }
                assert(util::views(names@) =~= p.expected@.map_values(|k: token::TokenType| token::spec_info(k)));
                let list = util::join(&names, " or ");
                buf.append(list.as_str());
                buf.append(", found ");
                buf.append(p.found.info());
                buf.append(" at ");
                write_position(&mut buf, p.position);
            },
        }
        buf
    }
}

/// Whether `text` tokenizes and a prefix of its tokens parses as an
/// expression.
#[verifier::opaque]
pub open spec fn expr_parses(text: Seq<char>) -> bool {
    match tokenizer::lex_all(tokenizer::start_state(text)) {
        Ok(ms) => html_grammar::e_or(ms.map_values(|m: tokenizer::TokModel| m.kind), 0) is Some,
        Err(_) => false,
    }
}

proof fn lemma_expr_parses(text: Seq<char>, toks: Seq<token::Token>)
    requires
        tokenizer::lex_all(tokenizer::start_state(text)) == Ok::<Seq<tokenizer::TokModel>, tokenizer::LexError>(
            tokenizer::models(toks),
        ),
    ensures
        expr_parses(text) == (html_grammar::e_or(html_grammar::kinds(toks), 0) is Some),
{
    html_grammar::lemma_kinds(toks);
    reveal(expr_parses);
}

/// Parses one expression of the markup language from `text`; whatever
/// follows the expression is ignored.
#[verifier::rlimit(100)]
pub fn parse_html_expr(text: &str) -> (r: Result<html_ast::Expression, Error>)
    ensures
        r is Ok <==> expr_parses(text@),
        r matches Ok(e) ==> html_grammar::expr_of_text(text@, e),
        r matches Err(Error::Lex(e)) ==> e.kind == tokenizer::LexErrorKind::UnmatchedBracket ==> exists|i: int|
            0 <= i < text@.len() && tokenizer::closer_of_char(#[trigger] text@[i]) is Some,
{
    let toks = match tokenizer::tokenize(text) {
        Ok(t) => t,
        Err(e) => {
            proof {
                reveal(expr_parses);
            }
            return Err(Error::Lex(e));
        },
    };
    assert(grammar::tokens_ok(toks@));
    proof {
        lemma_expr_parses(text@, toks@);
    }
    match html_grammar::expression(&toks, 0) {
        Ok((e, p)) => {
            assert(html_grammar::derives(toks@, 0, p as int, e, 8));
            assert(html_grammar::expr_of_text(text@, e));
            Ok(e)
        },
        Err(e) => Err(Error::Syntax(e)),
    }
}


/// Where a destructured import name (with an optional alias) at `q` ends.
pub open spec fn i_item_end(ks: Seq<token::TokenType>, q: int) -> Option<int> {
    if !html_grammar::tk(ks, q, token::TokenType::Ident) {
        None
    } else if html_grammar::tk(ks, q + 1, token::TokenType::As) {
        if html_grammar::tk(ks, q + 2, token::TokenType::Ident) { Some(q + 3) } else { None }
    } else {
        Some(q + 1)
    }
}

/// Destructured names from `q` on, a trailing comma allowed, then `}`.
pub open spec fn i_items(ks: Seq<token::TokenType>, q: int) -> Option<int>
    decreases ks.len() - q,
{
    if html_grammar::tk(ks, q, token::TokenType::Ident) {
        match i_item_end(ks, q) {
            Some(r) => if html_grammar::tk(ks, r, token::TokenType::Comma) {
                if q < r + 1 <= ks.len() { i_items(ks, r + 1) } else { None }
            } else {
                html_grammar::closing(ks, r, token::TokenType::CloseBrace)
            },
            None => None,
        }
    } else {
        html_grammar::closing(ks, q, token::TokenType::CloseBrace)
    }
}

/// `from "source"` and the line end at `q`.
pub open spec fn i_from(ks: Seq<token::TokenType>, q: int) -> Option<int> {
    if html_grammar::tk(ks, q, token::TokenType::From) && html_grammar::tk(ks, q + 1, token::TokenType::String)
        && html_grammar::tk(ks, q + 2, token::TokenType::Newline) {
        Some(q + 3)
    } else {
        None
    }
}

/// Where an import after its keyword ends.
pub open spec fn i_import(ks: Seq<token::TokenType>, p: int) -> Option<int> {
    if html_grammar::tk(ks, p, token::TokenType::OpenBrace) {
        match i_items(ks, p + 1) {
            Some(q) => i_from(ks, q),
            None => None,
        }
    } else if html_grammar::tk(ks, p, token::TokenType::Ident) {
        i_from(ks, p + 1)
    } else {
        None
    }
}

/// One block after its first token at `p`, by that token.
pub open spec fn b_block(ks: Seq<token::TokenType>, p: int) -> Option<int> {
    let k = ks[p];
    if k == token::TokenType::Css {
        css_grammar::c_block(ks, p + 1)
    } else if k == token::TokenType::Html {
        html_grammar::g_hblock(ks, p + 1)
    } else if k == token::TokenType::Import {
        i_import(ks, p + 1)
    } else if k == token::TokenType::Ident {
        html_grammar::g_hblock(ks, p)
    } else {
        None
    }
}

/// Blocks from `p` on up to the end-of-file token.
pub open spec fn b_blocks(ks: Seq<token::TokenType>, p: int) -> Option<int>
    decreases ks.len() - p,
{
    if !(0 <= p < ks.len()) {
        None
    } else if ks[p] == token::TokenType::Eof {
        Some(p)
    } else {
        match b_block(ks, p) {
            Some(q) => if p < q <= ks.len() { b_blocks(ks, q) } else { None },
            None => None,
        }
    }
}

/// Whether `text` tokenizes and its tokens parse as a file of blocks.
#[verifier::opaque]
pub open spec fn source_parses(text: Seq<char>) -> bool {
    match tokenizer::lex_all(tokenizer::start_state(text)) {
        Ok(ms) => b_blocks(ms.map_values(|m: tokenizer::TokModel| m.kind), 0) is Some,
        Err(_) => false,
    }
}

/// `{name [as alias], ...}` of a destructuring import; a trailing comma is
/// allowed.
fn import_braces(toks: &Vec<token::Token>, pos: usize) -> (r: html_grammar::PResult<Vec<(String, Option<String>)>>)
    requires
        grammar::tokens_ok(toks@),
        pos < toks@.len(),
    ensures
        r matches Ok((_, p)) ==> pos < p < toks@.len(),
        html_grammar::agrees(r, if html_grammar::tk(html_grammar::kinds(toks@), pos as int, token::TokenType::OpenBrace) {
            i_items(html_grammar::kinds(toks@), pos + 1)
        } else {
            None
        }),
{
    let mut p = grammar::expect(toks, pos, token::TokenType::OpenBrace)?;
    let mut items: Vec<(String, Option<String>)> = Vec::new();
    let mut more = true;
    while more && grammar::peek(toks, p) == token::TokenType::Ident
        invariant
            more ==> i_items(html_grammar::kinds(toks@), pos + 1) == i_items(html_grammar::kinds(toks@), p as int),
            !more ==> i_items(html_grammar::kinds(toks@), pos + 1) == html_grammar::closing(html_grammar::kinds(toks@), p as int, token::TokenType::CloseBrace),
            grammar::tokens_ok(toks@),
            pos < p < toks@.len(),
        decreases toks@.len() - p + if more { 1int } else { 0int },
    {
        let name = grammar::text_at(toks, p);
        let mut q = grammar::expect(toks, p, token::TokenType::Ident)?;
        let mut alias = None;
        if grammar::peek(toks, q) == token::TokenType::As {
            let q1 = grammar::expect(toks, q, token::TokenType::As)?;
            alias = Some(grammar::text_at(toks, q1));
            q = grammar::expect(toks, q1, token::TokenType::Ident)?;
        }
        items.push((name, alias));
        p = q;
        if grammar::peek(toks, p) == token::TokenType::Comma {
            p = grammar::expect(toks, p, token::TokenType::Comma)?;
        } else {
            more = false;
        }
    }
    let q = grammar::expect(toks, p, token::TokenType::CloseBrace)?;
    Ok((items, q))
}

/// An import after its keyword: `name from "source"` or
/// `{names} from "source"`.
fn import(toks: &Vec<token::Token>, pos: usize) -> (r: html_grammar::PResult<ast::Block>)
    requires
        grammar::tokens_ok(toks@),
        pos < toks@.len(),
    ensures
        r matches Ok((_, p)) ==> pos < p < toks@.len(),
        r matches Ok((b, _)) ==> b is ImportModule || b is ImportVars,
        html_grammar::agrees(r, i_import(html_grammar::kinds(toks@), pos as int)),
{
    if grammar::peek(toks, pos) == token::TokenType::OpenBrace {
        let (names, p) = import_braces(toks, pos)?;
        let p1 = grammar::expect(toks, p, token::TokenType::From)?;
        let p2 = grammar::expect(toks, p1, token::TokenType::String)?;
        let source = grammar::string_at(toks, p1);
        let p3 = grammar::expect(toks, p2, token::TokenType::Newline)?;
        Ok((ast::Block::ImportVars(names, source), p3))
    } else {
        let name = grammar::text_at(toks, pos);
        let p = grammar::expect(toks, pos, token::TokenType::Ident)?;
        let p1 = grammar::expect(toks, p, token::TokenType::From)?;
        let p2 = grammar::expect(toks, p1, token::TokenType::String)?;
        let source = grammar::string_at(toks, p1);
        let p3 = grammar::expect(toks, p2, token::TokenType::Newline)?;
        Ok((ast::Block::ImportModule(name, source), p3))
    }
}

/// The block that each leading token introduces: a style block after
/// `css`, a markup block named by the word after `html` (or by the leading
/// name itself), and an import after `import`.
pub open spec fn block_kind_ok(toks: Seq<token::Token>, a: int, blk: ast::Block) -> bool {
    let k = toks[a].kind;
    &&& k == token::TokenType::Css ==> blk is Css
    &&& k == token::TokenType::Html ==> (blk matches ast::Block::Html { name, .. } && name@ == toks[a + 1].text@)
    &&& k == token::TokenType::Ident ==> (blk matches ast::Block::Html { name, .. } && name@ == toks[a].text@)
    &&& k == token::TokenType::Import ==> (blk is ImportModule || blk is ImportVars)
    &&& (k == token::TokenType::Css || k == token::TokenType::Html || k == token::TokenType::Ident || k
        == token::TokenType::Import)
}

/// Whether the blocks `bs` start, in order, at increasing positions from
/// `a`, the last one ending before `b`.
pub open spec fn blocks_derive(toks: Seq<token::Token>, a: int, b: int, bs: Seq<ast::Block>) -> bool
    decreases bs.len(),
{
    if bs.len() == 0 {
        a == b
    } else {
        exists|m: int| #![trigger toks[m]]
            a <= m < b && blocks_derive(toks, a, m, bs.drop_last()) && block_kind_ok(toks, m, bs.last())
    }
}

/// The blocks of a file up to the end-of-file token.
pub fn body(toks: &Vec<token::Token>) -> (r: Result<ast::Ast, grammar::ParseError>)
    requires
        grammar::tokens_ok(toks@),
    ensures
        r matches Ok(a) ==> exists|p: int| #![trigger toks@[p]]
            0 <= p < toks@.len() && toks@[p].kind == token::TokenType::Eof && blocks_derive(toks@, 0, p, a.blocks@),
        r is Ok <==> b_blocks(html_grammar::kinds(toks@), 0) is Some,
{
    let mut blocks: Vec<ast::Block> = Vec::new();
    let mut p: usize = 0;
    loop
        invariant
            grammar::tokens_ok(toks@),
            p < toks@.len(),
            blocks_derive(toks@, 0, p as int, blocks@),
            b_blocks(html_grammar::kinds(toks@), 0) == b_blocks(html_grammar::kinds(toks@), p as int),
        decreases toks@.len() - p,
    {
        let ghost before = blocks@;
        let ghost p0 = p as int;
        let k = grammar::peek(toks, p);
        if k == token::TokenType::Css {
            let q = grammar::expect(toks, p, k)?;
            let (b, q1) = css_grammar::block(toks, q)?;
            blocks.push(b);
            assert(blocks@.drop_last() == before);
            p = q1;
        } else if k == token::TokenType::Html {
            let q = grammar::expect(toks, p, k)?;
            let (b, q1) = html_grammar::block(toks, q)?;
            blocks.push(b);
            assert(blocks@.drop_last() == before);
            p = q1;
        } else if k == token::TokenType::Import {
            let q = grammar::expect(toks, p, k)?;
            let (b, q1) = import(toks, q)?;
            blocks.push(b);
            assert(blocks@.drop_last() == before);
            p = q1;
        } else if k == token::TokenType::Ident {
            let (b, q1) = html_grammar::block(toks, p)?;
            blocks.push(b);
            assert(blocks@.drop_last() == before);
            p = q1;
        } else if k == token::TokenType::Eof {
            assert(toks@[p as int].kind == token::TokenType::Eof);
            return Ok(ast::Ast { blocks });
        } else {
            let mut ex: Vec<token::TokenType> = Vec::new();
            ex.push(token::TokenType::Css);
            ex.push(token::TokenType::Html);
            ex.push(token::TokenType::Import);
            ex.push(token::TokenType::Ident);
            ex.push(token::TokenType::Eof);
            return Err(grammar::error_at(toks, p, ex));
        }
    }
}

/// Tokenizes and parses a whole source file. The file is tokenized in
/// full first, so a lexical error (such as an unmatched closing bracket)
/// fails before any block is parsed.
pub fn parse_string(text: &str) -> (r: Result<ast::Ast, Error>)
    ensures
        r is Ok <==> source_parses(text@),
        r is Ok ==> exists|toks: Seq<token::Token>, p: int|
            tokenizer::lex_all(tokenizer::start_state(text@)) == Ok::<Seq<tokenizer::TokModel>, tokenizer::LexError>(
                tokenizer::models(toks),
            ) && tokenizer::token_stream(text@, toks) && 0 <= p < toks.len() && toks[p].kind == token::TokenType::Eof
                && #[trigger] blocks_derive(toks, 0, p, r->Ok_0.blocks@),
        r matches Err(Error::Lex(e)) ==> e.kind == tokenizer::LexErrorKind::UnmatchedBracket ==> exists|i: int|
            0 <= i < text@.len() && tokenizer::closer_of_char(#[trigger] text@[i]) is Some,
{
    let toks = match tokenizer::tokenize(text) {
        Ok(t) => t,
        Err(e) => {
            proof {
                reveal(source_parses);
            }
            return Err(Error::Lex(e));
        },
    };
    proof {
        html_grammar::lemma_kinds(toks@);
        reveal(source_parses);
    }
    assert(tokenizer::token_stream(text@, toks@));
    match body(&toks) {
        Ok(a) => {
            let ghost p = choose|p: int| #![trigger toks@[p]]
                0 <= p < toks@.len() && toks@[p].kind == token::TokenType::Eof && blocks_derive(toks@, 0, p, a.blocks@);
            assert(tokenizer::token_stream(text@, toks@) && blocks_derive(toks@, 0, p, a.blocks@));
            assert(exists|t: Seq<token::Token>, q: int|
                tokenizer::lex_all(tokenizer::start_state(text@)) == Ok::<Seq<tokenizer::TokModel>, tokenizer::LexError>(
                    tokenizer::models(t),
                ) && tokenizer::token_stream(text@, t) && 0 <= q < t.len() && t[q].kind == token::TokenType::Eof
                    && #[trigger] blocks_derive(t, 0, q, a.blocks@));
            let r = Ok(a);
            assert(r->Ok_0 == a);
            r
        },
        Err(e) => Err(Error::Syntax(e)),
    }
}

} // verus!
