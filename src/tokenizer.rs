use vstd::prelude::*;
use unicode_segmentation::UnicodeSegmentation;
use crate::token::{Position, Token, TokenType, is_quoted};
use crate::util::{chars_of, eq_str, string_from, views};

verus! {

/// The grapheme clusters (extended) of a text.
pub uninterp spec fn graphemes_of(s: Seq<char>) -> Seq<Seq<char>>;

/// The pieces laid end to end.
pub open spec fn concat(parts: Seq<Seq<char>>) -> Seq<char>
    decreases parts.len(),
{
    if parts.len() == 0 {
        Seq::empty()
    } else {
        concat(parts.drop_last()) + parts.last()
    }
}

/// Relies on UnicodeSegmentation::graphemes (extended clusters): the clusters
/// are consecutive non-empty slices of the text that together cover it.
#[verifier::external_body]
fn graphemes(s: &str) -> (r: Vec<String>)
    ensures
        views(r@) == graphemes_of(s@),
        concat(views(r@)) == s@,
        forall|i: int| 0 <= i < r@.len() ==> (#[trigger] r@[i])@.len() > 0,
{
    UnicodeSegmentation::graphemes(s, true).map(String::from).collect()
}

/// Lexical mode: inside a style block bare words may hold dashes and dots.
#[derive(Debug, PartialEq, Eq, Structural, Clone, Copy)]
pub enum Mode {
    Normal,
    Css,
}

/// What went wrong while tokenizing.
#[derive(Debug, PartialEq, Eq, Structural, Clone, Copy)]
pub enum LexErrorKind {
    /// A closing bracket that does not close the innermost open one.
    UnmatchedBracket,
    /// A dedent that lands between two indentation levels.
    WrongIndentation,
    /// A character that starts no token.
    UnexpectedCharacter(char),
}

/// A lexical error and where it was found.
#[derive(Debug, PartialEq, Eq, Structural, Clone, Copy)]
pub struct LexError {
    pub kind: LexErrorKind,
    pub position: Position,
}

pub open spec fn is_letter(c: char) -> bool {
    ('a' <= c && c <= 'z') || ('A' <= c && c <= 'Z')
}

pub open spec fn is_digit(c: char) -> bool {
    '0' <= c && c <= '9'
}

/// Characters that may continue a word of a style block.
pub open spec fn is_css_char(c: char) -> bool {
    is_letter(c) || is_digit(c) || c == '_' || c == '-' || c == '.'
}

/// Characters that may continue an identifier.
pub open spec fn is_ident_char(c: char) -> bool {
    is_letter(c) || is_digit(c) || c == '_'
}

/// Characters that may continue a number.
pub open spec fn is_number_char(c: char) -> bool {
    is_digit(c) || c == '_' || c == '.'
}

/// The classes of characters that continue a word.
#[derive(Debug, PartialEq, Eq, Structural, Clone, Copy)]
pub enum CharClass {
    CssWord,
    Ident,
    Number,
}

pub open spec fn in_class(c: char, class: CharClass) -> bool {
    match class {
        CharClass::CssWord => is_css_char(c),
        CharClass::Ident => is_ident_char(c),
        CharClass::Number => is_number_char(c),
    }
}

/// For a closing bracket character, the opening one it must match.
pub open spec fn closer_of_char(c: char) -> Option<char> {
    if c == ')' {
        Some('(')
    } else if c == ']' {
        Some('[')
    } else if c == '}' {
        Some('{')
    } else {
        None
    }
}

/// Whether `c` is a closing bracket that does not close the innermost of
/// the `open` ones.
pub open spec fn unmatched_closer(c: char, open: Seq<char>) -> bool {
    closer_of_char(c) matches Some(o) && (open.len() == 0 || open.last() != o)
}

/// The kind of a punctuation token with text `s`.
pub open spec fn punct_kind(s: Seq<char>) -> Option<TokenType> {
    if s.len() == 1 {
        punct_one(s[0])
    } else if s.len() == 2 {
        punct_two(s[0], s[1])
    } else {
        None
    }
}

/// The kind of a one-character punctuation token.
pub open spec fn punct_one(c: char) -> Option<TokenType> {
    if c == '+' {
        Some(TokenType::Plus)
    } else if c == '*' {
        Some(TokenType::Multiply)
    } else if c == '/' {
        Some(TokenType::Divide)
    } else if c == '?' {
        Some(TokenType::Question)
    } else if c == ':' {
        Some(TokenType::Colon)
    } else if c == '.' {
        Some(TokenType::Dot)
    } else if c == ',' {
        Some(TokenType::Comma)
    } else if c == '=' {
        Some(TokenType::Equals)
    } else if c == '!' {
        Some(TokenType::Not)
    } else if c == '>' {
        Some(TokenType::Greater)
    } else if c == '<' {
        Some(TokenType::Less)
    } else if c == '-' {
        Some(TokenType::Dash)
    } else if c == '(' {
        Some(TokenType::OpenParen)
    } else if c == '[' {
        Some(TokenType::OpenBracket)
    } else if c == '{' {
        Some(TokenType::OpenBrace)
    } else if c == ')' {
        Some(TokenType::CloseParen)
    } else if c == ']' {
        Some(TokenType::CloseBracket)
    } else if c == '}' {
        Some(TokenType::CloseBrace)
    } else {
        None
    }
}

/// The kind of a two-character operator token.
pub open spec fn punct_two(a: char, b: char) -> Option<TokenType> {
    if a == '=' && b == '=' {
        Some(TokenType::Eq)
    } else if a == '!' && b == '=' {
        Some(TokenType::NotEq)
    } else if a == '>' && b == '=' {
        Some(TokenType::GreaterEq)
    } else if a == '<' && b == '=' {
        Some(TokenType::LessEq)
    } else if a == '-' && b == '>' {
        Some(TokenType::ArrowRight)
    } else {
        None
    }
}

/// How a token's kind follows from its text: words are keywords or
/// identifiers, other marks are punctuation, numbers start with a digit
/// and words of style blocks are made of word characters.
pub open spec fn text_kind_ok(t: Token) -> bool {
    let s = t.text@;
    &&& t.kind == TokenType::Number ==> s.len() > 0 && is_digit(s[0]) && forall|i: int|
        0 <= i < s.len() ==> is_number_char(#[trigger] s[i])
    &&& t.kind == TokenType::CssWord ==> s.len() > 0 && forall|i: int|
        0 <= i < s.len() ==> is_css_char(#[trigger] s[i])
    &&& (has_span(t.kind) && t.kind != TokenType::Number && t.kind != TokenType::CssWord
        && t.kind != TokenType::String) ==> if s.len() > 0 && (is_letter(s[0]) || s[0] == '_') {
        t.kind == keyword_kind(s)
    } else {
        punct_kind(s) == Some(t.kind)
    }
}

/// Whether the character at `i` lies in a comment: after a `#` with no
/// line break between.
pub open spec fn in_comment(src: Seq<char>, i: int) -> bool {
    exists|j: int|
        #![trigger src[j]]
        0 <= j <= i && src[j] == '#' && forall|k: int| j <= k <= i ==> src[k] != '\n'
}

/// Characters that carry no token: blanks, line breaks and comments.
pub open spec fn insignificant(src: Seq<char>, i: int) -> bool {
    src[i] == ' ' || src[i] == '\t' || src[i] == '\n' || in_comment(src, i)
}

/// Tokens whose text is a slice of the source.
pub open spec fn has_span(k: TokenType) -> bool {
    k != TokenType::Newline && k != TokenType::Indent && k != TokenType::Dedent
        && k != TokenType::Eof
}

pub open spec fn opener_of(k: TokenType) -> Option<char> {
    match k {
        TokenType::OpenParen => Some('('),
        TokenType::OpenBracket => Some('['),
        TokenType::OpenBrace => Some('{'),
        _ => None,
    }
}

/// For a closing bracket, the opening character it must match.
pub open spec fn closer_of(k: TokenType) -> Option<char> {
    match k {
        TokenType::CloseParen => Some('('),
        TokenType::CloseBracket => Some('['),
        TokenType::CloseBrace => Some('{'),
        _ => None,
    }
}

/// The word kind for an identifier-shaped text outside style blocks.
pub open spec fn keyword_kind(s: Seq<char>) -> TokenType {
    if s == "css"@ {
        TokenType::Css
    } else if s == "html"@ {
        TokenType::Html
    } else if s == "import"@ {
        TokenType::Import
    } else if s == "from"@ {
        TokenType::From
    } else if s == "if"@ {
        TokenType::If
    } else if s == "elif"@ {
        TokenType::Elif
    } else if s == "for"@ {
        TokenType::For
    } else if s == "in"@ {
        TokenType::In
    } else if s == "of"@ {
        TokenType::Of
    } else if s == "as"@ {
        TokenType::As
    } else if s == "key"@ {
        TokenType::Key
    } else if s == "else"@ {
        TokenType::Else
    } else if s == "events"@ {
        TokenType::Events
    } else if s == "store"@ {
        TokenType::Store
    } else if s == "let"@ {
        TokenType::Let
    } else if s == "link"@ {
        TokenType::Link
    } else if s == "new"@ {
        TokenType::New
    } else if s == "not"@ {
        TokenType::Not
    } else if s == "and"@ {
        TokenType::And
    } else if s == "or"@ {
        TokenType::Or
    } else {
        TokenType::Ident
    }
}

/// What one successful step of the tokenizer guarantees about the token it
/// returns and about the tokenizer's state before (`a`) and after (`b`).
pub open spec fn step_ok(a: Tokenizer, b: Tokenizer, t: Token) -> bool {
    &&& has_span(t.kind) ==> {
        &&& a.cursor() <= t.start
        &&& t.text@.len() > 0
        &&& t.start + t.text@.len() <= b.cursor()
        &&& b.source().subrange(t.start as int, t.start + t.text@.len()) == t.text@
        &&& t.position == a.position_at(t.start as int)
    }
    &&& t.kind == TokenType::String ==> is_quoted(t.text@)
    &&& (t.kind == TokenType::Newline || t.kind == TokenType::Indent) ==> a.open_brackets().len() == 0
    &&& t.kind == TokenType::Dedent ==> a.open_brackets().len() == 0 || t.start == a.source().len()
    &&& text_kind_ok(t)
    &&& forall|i: int|
        a.cursor() <= i < b.cursor() ==> #[trigger] insignificant(b.source(), i) || (has_span(
            t.kind,
        ) && t.start <= i < t.start + t.text@.len())
    &&& t.kind == TokenType::Indent ==> b.levels().len() == a.levels().len() + 1
    &&& t.kind == TokenType::Dedent ==> b.levels().len() + 1 == a.levels().len()
    &&& t.kind != TokenType::Indent && t.kind != TokenType::Dedent ==> b.levels().len()
        == a.levels().len()
    &&& t.kind == TokenType::Eof ==> b.cursor() == b.source().len() && b.levels().len() == 1
    &&& t.kind != TokenType::Eof && t.kind != TokenType::Dedent ==> b.cursor() > a.cursor()
    &&& opener_of(t.kind) matches Some(c) ==> b.open_brackets() == a.open_brackets().push(c)
    &&& closer_of(t.kind) matches Some(c) ==> {
        &&& a.open_brackets().len() > 0
        &&& a.open_brackets().last() == c
        &&& b.open_brackets() == a.open_brackets().drop_last()
    }
    &&& opener_of(t.kind) is None && closer_of(t.kind) is None ==> b.open_brackets()
        == a.open_brackets()
}

/// A token as a value: kind, text, position and index of its first character.
pub struct TokModel {
    pub kind: TokenType,
    pub text: Seq<char>,
    pub position: Position,
    pub start: int,
}

/// The value of a token.
pub open spec fn model(t: Token) -> TokModel {
    TokModel { kind: t.kind, text: t.text@, position: t.position, start: t.start as int }
}

/// The values of tokens.
pub open spec fn models(ts: Seq<Token>) -> Seq<TokModel> {
    ts.map_values(|t: Token| model(t))
}

/// The outcome of one step, with the token as a value.
pub open spec fn lexed(r: Result<Token, LexError>) -> Result<TokModel, LexError> {
    match r {
        Ok(t) => Ok(model(t)),
        Err(e) => Err(e),
    }
}

/// The state of the tokenizer: the characters with their lines and
/// columns, the position after the last one, the index of the next
/// character, the open brackets, the indentation levels, and whether bare
/// words are read as words of a style block.
pub struct LexState {
    pub src: Seq<char>,
    pub lines: Seq<usize>,
    pub cols: Seq<usize>,
    pub end: Position,
    pub pos: int,
    pub braces: Seq<char>,
    pub indents: Seq<usize>,
    pub css: bool,
}

/// What every state of the tokenizer satisfies: lines and columns for
/// each character, columns from one, a cursor inside the text, and
/// indentation levels that start at zero and strictly increase.
pub open spec fn state_ok(s: LexState) -> bool {
    &&& s.lines.len() == s.src.len()
    &&& s.cols.len() == s.src.len()
    &&& forall|i: int| 0 <= i < s.cols.len() ==> #[trigger] s.cols[i] >= 1
    &&& 0 <= s.pos <= s.src.len()
    &&& s.indents.len() >= 1
    &&& s.indents[0] == 0
    &&& forall|i: int, j: int| #![trigger s.indents[i], s.indents[j]] 0 <= i < j < s.indents.len() ==> s.indents[i] < s.indents[j]
}

/// How the characters of a text lie on lines and columns, one column per
/// grapheme cluster, and the position after them.
pub struct Layout {
    pub lines: Seq<usize>,
    pub cols: Seq<usize>,
    pub line: usize,
    pub col: usize,
}

/// One more, unless at the top.
pub open spec fn inc(n: usize) -> usize {
    if n < usize::MAX {
        (n + 1) as usize
    } else {
        n
    }
}

/// The layout of text made of the grapheme clusters `gs`: a cluster that
/// is a line break starts a new line, any other moves one column on.
pub open spec fn layout(gs: Seq<Seq<char>>) -> Layout
    decreases gs.len(),
{
    if gs.len() == 0 {
        Layout { lines: Seq::empty(), cols: Seq::empty(), line: 1, col: 1 }
    } else {
        let l = layout(gs.drop_last());
        let g = gs.last();
        Layout {
            lines: l.lines + Seq::new(g.len(), |i: int| l.line),
            cols: l.cols + Seq::new(g.len(), |i: int| l.col),
            line: if g == seq!['\n'] { inc(l.line) } else { l.line },
            col: if g == seq!['\n'] { 1 } else { inc(l.col) },
        }
    }
}

/// The state of a tokenizer at the start of `src`.
pub open spec fn start_state(src: Seq<char>) -> LexState {
    let l = layout(graphemes_of(src));
    LexState {
        src,
        lines: l.lines,
        cols: l.cols,
        end: Position { line: l.line, column: l.col },
        pos: 0,
        braces: Seq::empty(),
        indents: seq![0usize],
        css: false,
    }
}

/// The first index at or after `from` whose character is not a space.
pub open spec fn spaces_end(src: Seq<char>, from: int) -> int
    decreases src.len() - from,
{
    if from < 0 || from >= src.len() || src[from] != ' ' {
        from
    } else {
        spaces_end(src, from + 1)
    }
}

/// The index just past the next line break at or after `from`, or the end.
pub open spec fn line_end(src: Seq<char>, from: int) -> int
    decreases src.len() - from,
{
    if from < 0 || from >= src.len() {
        from
    } else if src[from] == '\n' {
        from + 1
    } else {
        line_end(src, from + 1)
    }
}

/// The first index at or after `from` whose character is not of `class`.
pub open spec fn scan_end(src: Seq<char>, from: int, class: CharClass) -> int
    decreases src.len() - from,
{
    if from < 0 || from >= src.len() || !in_class(src[from], class) {
        from
    } else {
        scan_end(src, from + 1, class)
    }
}

/// The index just past the closing quote `q` of a string literal whose
/// body starts at `from` (a backslash escapes the next character), or the
/// end of the text.
pub open spec fn string_end(src: Seq<char>, from: int, q: char) -> int
    decreases src.len() - from,
{
    if from < 0 || from >= src.len() {
        from
    } else if src[from] == q {
        from + 1
    } else if src[from] == '\\' && from + 1 < src.len() {
        string_end(src, from + 2, q)
    } else {
        string_end(src, from + 1, q)
    }
}

/// The characters that start a punctuation token.
pub open spec fn punct_start(c: char) -> bool {
    c == ':' || c == '.' || c == '=' || c == ',' || c == '-' || c == '+' || c == '*' || c == '/' || c == '?'
        || c == '>' || c == '<' || c == '!'
}

/// The kind and length of the punctuation token that starts with `c`
/// followed by `nx`: the two-character operators are taken whole.
pub open spec fn punct_pair(c: char, nx: char) -> (TokenType, int) {
    if c == '=' && nx == '=' {
        (TokenType::Eq, 2)
    } else if c == '!' && nx == '=' {
        (TokenType::NotEq, 2)
    } else if c == '>' && nx == '=' {
        (TokenType::GreaterEq, 2)
    } else if c == '<' && nx == '=' {
        (TokenType::LessEq, 2)
    } else if c == '-' && nx == '>' {
        (TokenType::ArrowRight, 2)
    } else {
        (punct_one(c)->Some_0, 1)
    }
}

/// The position of the character at `i`.
pub open spec fn pos_at(s: LexState, i: int) -> Position {
    Position { line: s.lines[i], column: s.cols[i] }
}

/// A token of `kind` whose text is `src[from..to]`; reading goes on at `to`.
pub open spec fn made(s: LexState, kind: TokenType, from: int, to: int) -> (Result<TokModel, LexError>, LexState) {
    (
        Ok(TokModel { kind, text: s.src.subrange(from, to), position: pos_at(s, from), start: from }),
        LexState { pos: to, ..s },
    )
}

/// A token without text of `kind` at `position`, starting at `start`.
pub open spec fn mark(kind: TokenType, position: Position, start: int) -> Result<TokModel, LexError> {
    Ok(TokModel { kind, text: Seq::empty(), position, start })
}

/// An error of `kind` at `position`; the cursor stays at `p`.
pub open spec fn fail(s: LexState, kind: LexErrorKind, position: Position, p: int) -> (Result<TokModel, LexError>, LexState) {
    (Err(LexError { kind, position }), LexState { pos: p, ..s })
}

/// One step of the tokenizer from index `p` of its text: blank lines and
/// comment lines are skipped; at the start of a line the indentation is
/// compared with the levels (deeper: `Indent`; shallower: one `Dedent` per
/// level left, an error when it falls between two levels); at the end of
/// the text the levels are unwound with `Dedent`s before `Eof`. Otherwise
/// the token at `p` is read as `lex_token` says.
#[verifier::opaque]
pub open spec fn lex_at(s: LexState, p: int) -> (Result<TokModel, LexError>, LexState)
    decreases s.src.len() - p, 1nat,
{
    let n = s.src.len();
    if p < 0 {
        fail(s, LexErrorKind::UnexpectedCharacter(' '), s.end, p)
    } else if p < n {
        let ch = s.src[p];
        let col = s.cols[p];
        if ch == '\n' && col == 1 {
            lex_at(s, p + 1)
        } else if ch == ' ' && col == 1 && s.braces.len() == 0 {
            let np = spaces_end(s.src, p + 1);
            if np <= p || np > n {
                fail(s, LexErrorKind::UnexpectedCharacter(' '), s.end, p)
            } else if np < n && s.src[np] == '#' {
                let q = line_end(s.src, np);
                if p < q <= n {
                    lex_at(s, q)
                } else {
                    fail(s, LexErrorKind::UnexpectedCharacter(' '), s.end, p)
                }
            } else if np >= n {
                lex_at(s, np)
            } else if s.src[np] == '\n' {
                lex_at(s, np + 1)
            } else {
                let indent = s.cols[np] - 1;
                let cur = s.indents.last();
                if indent == cur {
                    lex_at(s, np)
                } else if indent > cur {
                    (
                        mark(TokenType::Indent, pos_at(s, np), np),
                        LexState { pos: np, indents: s.indents.push(indent as usize), ..s },
                    )
                } else {
                    let rest = s.indents.drop_last();
                    if rest.last() < indent {
                        fail(s, LexErrorKind::WrongIndentation, pos_at(s, np), p)
                    } else {
                        (
                            mark(TokenType::Dedent, pos_at(s, np), np),
                            LexState { pos: if rest.last() == indent { np } else { p }, indents: rest, ..s },
                        )
                    }
                }
            }
        } else if ch == '#' && col == 1 {
            let q = line_end(s.src, p);
            if p < q <= n {
                lex_at(s, q)
            } else {
                fail(s, LexErrorKind::UnexpectedCharacter(' '), s.end, p)
            }
        } else if ch != ' ' && col == 1 && s.braces.len() == 0 && s.indents.len() > 1 {
            (mark(TokenType::Dedent, pos_at(s, p), p), LexState { pos: p, indents: s.indents.drop_last(), ..s })
        } else {
            lex_token(s, p)
        }
    } else if s.indents.len() > 1 {
        (mark(TokenType::Dedent, s.end, p), LexState { pos: p, indents: s.indents.drop_last(), ..s })
    } else {
        (mark(TokenType::Eof, s.end, p), LexState { pos: p, ..s })
    }
}

/// Reads the token whose first character is at `p`: a line break is a
/// `Newline` only when no bracket is open; brackets must close the
/// innermost open one; inside a style block, words may hold dashes and
/// dots and `html` at the start of a line ends the block; two-character
/// operators are taken whole; a comment ends the line; strings run to
/// their closing quote; `css` at the start of a line opens a style block;
/// anything else is an unexpected character.
#[verifier::opaque]
pub open spec fn lex_token(s: LexState, p: int) -> (Result<TokModel, LexError>, LexState)
    decreases s.src.len() - p, 0nat,
{
    let n = s.src.len();
    if !(0 <= p < n) {
        fail(s, LexErrorKind::UnexpectedCharacter(' '), s.end, p)
    } else {
        let ch = s.src[p];
        let col = s.cols[p];
        if ch == '\n' {
            if col != 1 && s.braces.len() == 0 {
                (
                    Ok(TokModel { kind: TokenType::Newline, text: seq!['\n'], position: pos_at(s, p), start: p }),
                    LexState { pos: p + 1, ..s },
                )
            } else {
                lex_at(s, p + 1)
            }
        } else if ch == '(' || ch == '{' || ch == '[' {
            made(LexState { braces: s.braces.push(ch), ..s }, opener_kind(ch), p, p + 1)
        } else if closer_of_char(ch) is Some {
            if unmatched_closer(ch, s.braces) {
                fail(s, LexErrorKind::UnmatchedBracket, pos_at(s, p), p)
            } else {
                made(LexState { braces: s.braces.drop_last(), ..s }, punct_one(ch)->Some_0, p, p + 1)
            }
        } else if s.css && (is_letter(ch) || is_digit(ch) || ch == '_' || ch == '-') {
            let e = scan_end(s.src, p + 1, CharClass::CssWord);
            if col == 1 && s.src.subrange(p, e) == "html"@ {
                made(LexState { css: false, ..s }, TokenType::Html, p, e)
            } else {
                made(s, TokenType::CssWord, p, e)
            }
        } else if punct_start(ch) {
            let nx = if p + 1 < n { s.src[p + 1] } else { ' ' };
            made(s, punct_pair(ch, nx).0, p, p + punct_pair(ch, nx).1)
        } else if ch == '#' {
            let q = line_end(s.src, p + 1);
            if s.braces.len() == 0 {
                (
                    Ok(TokModel { kind: TokenType::Newline, text: seq!['\n'], position: pos_at(s, p), start: p }),
                    LexState { pos: q, ..s },
                )
            } else if p < q <= n {
                lex_at(s, q)
            } else {
                fail(s, LexErrorKind::UnexpectedCharacter(ch), pos_at(s, p), p)
            }
        } else if ch == '"' || ch == '\'' {
            made(s, TokenType::String, p, string_end(s.src, p + 1, ch))
        } else if ch == ' ' || ch == '\t' {
            lex_at(s, p + 1)
        } else if !s.css && (is_letter(ch) || ch == '_') {
            let e = scan_end(s.src, p + 1, CharClass::Ident);
            let k = keyword_kind(s.src.subrange(p, e));
            made(LexState { css: if k == TokenType::Css && col == 1 { true } else { s.css }, ..s }, k, p, e)
        } else if is_digit(ch) {
            made(s, TokenType::Number, p, scan_end(s.src, p + 1, CharClass::Number))
        } else {
            fail(s, LexErrorKind::UnexpectedCharacter(ch), pos_at(s, p), p)
        }
    }
}

/// The kind of an opening bracket.
pub open spec fn opener_kind(c: char) -> TokenType {
    if c == '(' {
        TokenType::OpenParen
    } else if c == '{' {
        TokenType::OpenBrace
    } else {
        TokenType::OpenBracket
    }
}

/// Whether a step from `a` to `b` moved on: the cursor advanced, or it
/// stayed and a level was unwound.
pub open spec fn progressed(a: LexState, b: LexState) -> bool {
    &&& b.src == a.src
    &&& b.pos <= b.src.len()
    &&& (b.pos > a.pos || (b.pos == a.pos && b.indents.len() < a.indents.len()))
}

/// Every token of a text from state `s` on, up to and including the end of
/// file; or the first lexical error.
#[verifier::opaque]
pub open spec fn lex_all(s: LexState) -> Result<Seq<TokModel>, LexError>
    decreases s.src.len() - s.pos, s.indents.len(),
{
    let (r, s2) = lex_at(s, s.pos);
    match r {
        Err(e) => Err(e),
        Ok(t) => if t.kind == TokenType::Eof {
            Ok(seq![t])
        } else if progressed(s, s2) {
            match lex_all(s2) {
                Ok(ts) => Ok(seq![t] + ts),
                Err(e) => Err(e),
            }
        } else {
            Err(LexError { kind: LexErrorKind::UnexpectedCharacter(' '), position: s.end })
        },
    }
}

/// `ms` followed by the outcome `rest`.
pub open spec fn prepend(ms: Seq<TokModel>, rest: Result<Seq<TokModel>, LexError>) -> Result<Seq<TokModel>, LexError> {
    match rest {
        Ok(ts) => Ok(ms + ts),
        Err(e) => Err(e),
    }
}

/// A lazy, restartable tokenizer over one source text.

pub struct Tokenizer {
    chars: Vec<char>,
    lines: Vec<usize>,
    columns: Vec<usize>,
    end: Position,
    pos: usize,
    braces: Vec<char>,
    indents: Vec<usize>,
    mode: Mode,
}

impl Tokenizer {
    /// The characters of the source.
    pub open spec fn source(&self) -> Seq<char> {
        self.state().src
    }

    /// The state of the tokenizer as a value.
    pub closed spec fn state(&self) -> LexState {
        LexState {
            src: self.chars@,
            lines: self.lines@,
            cols: self.columns@,
            end: self.end,
            pos: self.pos as int,
            braces: self.braces@,
            indents: self.indents@,
            css: self.mode == Mode::Css,
        }
    }

    /// The index of the next character to read.
    pub open spec fn cursor(&self) -> int {
        self.state().pos
    }

    /// The stack of open brackets.
    pub open spec fn open_brackets(&self) -> Seq<char> {
        self.state().braces
    }

    /// The stack of indentation widths.
    pub open spec fn levels(&self) -> Seq<usize> {
        self.state().indents
    }

    /// The position of the character at `i`.
    pub open spec fn position_at(&self, i: int) -> Position {
        pos_at(self.state(), i)
    }

    pub closed spec fn wf(&self) -> bool {
        &&& self.lines@.len() == self.chars@.len()
        &&& self.columns@.len() == self.chars@.len()
        &&& self.pos <= self.chars@.len()
        &&& forall|i: int| 0 <= i < self.columns@.len() ==> #[trigger] self.columns@[i] >= 1
        &&& self.indents@.len() >= 1
        &&& self.indents@[0] == 0
        &&& forall|i: int, j: int|
            #![trigger self.indents@[i], self.indents@[j]]
            0 <= i < j < self.indents@.len() ==> self.indents@[i] < self.indents@[j]
        &&& forall|i: int|
            0 <= i < self.braces@.len() ==> (#[trigger] self.braces@[i] == '(' || self.braces@[i]
                == '[' || self.braces@[i] == '{')
    }

    /// A tokenizer at the start of `val`.
    pub fn new(val: &str) -> (r: Tokenizer)
        ensures
            r.wf(),
            r.source() == val@,
            r.cursor() == 0,
            r.open_brackets().len() == 0,
            r.levels() == seq![0usize],
            r.state() == start_state(val@),
            state_ok(r.state()),
    {
        let gs = graphemes(val);
        let mut chars: Vec<char> = Vec::new();
        let mut lines: Vec<usize> = Vec::new();
        let mut columns: Vec<usize> = Vec::new();
        let mut line: usize = 1;
        let mut column: usize = 1;
        let mut k: usize = 0;
        while k < gs.len()
            invariant
                k <= gs@.len(),
                chars@ == concat(views(gs@.subrange(0, k as int))),
                lines@.len() == chars@.len(),
                columns@.len() == chars@.len(),
                forall|i: int| 0 <= i < columns@.len() ==> #[trigger] columns@[i] >= 1,
                1 <= line,
                1 <= column,
                lines@ == layout(views(gs@.subrange(0, k as int))).lines,
                columns@ == layout(views(gs@.subrange(0, k as int))).cols,
                line == layout(views(gs@.subrange(0, k as int))).line,
                column == layout(views(gs@.subrange(0, k as int))).col,
            decreases gs.len() - k,
        {
            let g = chars_of(gs[k].as_str());
            let mut j: usize = 0;
            let ghost before = chars@;
            let ghost lines0 = lines@;
            let ghost cols0 = columns@;
            while j < g.len()
                invariant
                    j <= g@.len(),
                    chars@ == before + g@.subrange(0, j as int),
                    lines@.len() == chars@.len(),
                    columns@.len() == chars@.len(),
                    forall|i: int| 0 <= i < columns@.len() ==> #[trigger] columns@[i] >= 1,
                    column >= 1,
                    lines@ == lines0 + Seq::new(j as nat, |i: int| line),
                    columns@ == cols0 + Seq::new(j as nat, |i: int| column),
                decreases g.len() - j,
            {
                chars.push(g[j]);
                lines.push(line);
                columns.push(column);
                assert(lines@ =~= lines0 + Seq::new((j + 1) as nat, |i: int| line));
                assert(columns@ =~= cols0 + Seq::new((j + 1) as nat, |i: int| column));
                assert(g@.subrange(0, j + 1) == g@.subrange(0, j as int).push(g@[j as int]));
                j += 1;
            }
            assert(g@.subrange(0, g@.len() as int) == g@);
            assert(views(gs@.subrange(0, k + 1)).drop_last() == views(gs@.subrange(0, k as int)));
            let ghost gv = views(gs@.subrange(0, k + 1));
            assert(gv.last() == g@);
            let is_break = g.len() == 1 && g[0] == '\n';
            assert(is_break == (g@ == seq!['\n'])) by {
                if g@ == seq!['\n'] {
                    assert(g@[0] == '\n');
                }
                if is_break {
                    assert(g@ =~= seq!['\n']);
                }
            }
            if is_break {
                line = if line < usize::MAX { line + 1 } else { line };
                column = 1;
            } else {
                column = if column < usize::MAX { column + 1 } else { column };
            }
            k += 1;
        }
        assert(gs@.subrange(0, gs@.len() as int) == gs@);
        let mut indents: Vec<usize> = Vec::new();
        indents.push(0);
        assert(indents@ =~= seq![0usize]);
        Tokenizer {
            chars,
            lines,
            columns,
            end: Position { line, column },
            pos: 0,
            braces: Vec::new(),
            indents,
            mode: Mode::Normal,
        }
    }

    /// Whether all the source has been read.
    pub fn end_of_file(&self) -> (r: bool)
        requires
            self.wf(),
        ensures
            r == (self.cursor() >= self.source().len()),
    {
        self.pos >= self.chars.len()
    }

    /// The next token, or the lexical error that stops tokenizing.
    #[verifier::rlimit(100)]
    pub fn next(&mut self) -> (r: Result<Token, LexError>)
        requires
            old(self).wf(),
        ensures
            final(self).wf(),
            final(self).source() == old(self).source(),
            old(self).cursor() <= final(self).cursor(),
            r matches Ok(t) ==> step_ok(*old(self), *final(self), t),
            r matches Err(e) ==> e.kind == LexErrorKind::UnmatchedBracket ==> exists|i: int|
                old(self).cursor() <= i < old(self).source().len() && unmatched_closer(
                    #[trigger] old(self).source()[i],
                    old(self).open_brackets(),
                ),
            (lexed(r), final(self).state()) == lex_at(old(self).state(), old(self).cursor()),
            state_ok(final(self).state()),
    {
        let ghost s0 = old(self).state();
        let n = self.chars.len();
        loop
            invariant
                self.wf(),
                s0 == old(self).state(),
                self.mode == old(self).mode,
                self.end == old(self).end,
                lex_at(s0, self.pos as int) == lex_at(s0, old(self).pos as int),
                self.chars@ == old(self).chars@,
                self.lines@ == old(self).lines@,
                self.columns@ == old(self).columns@,
                self.braces@ == old(self).braces@,
                self.indents@ == old(self).indents@,
                n == self.chars@.len(),
                old(self).pos <= self.pos,
                forall|i: int| old(self).pos <= i < self.pos ==> #[trigger] insignificant(self.chars@, i),
            decreases n - self.pos,
        {
            proof {
                reveal(lex_at);
                reveal(lex_token);
            }
            let pos = self.pos;
            if pos < n {
                let ch = self.chars[pos];
                let col = self.columns[pos];
                if ch == '\n' && col == 1 {
                    self.pos = pos + 1;
                    continue;
                }
                if ch == ' ' && col == 1 && self.braces.len() == 0 {
                    let mut np = pos + 1;
                    while np < n && self.chars[np] == ' '
                        invariant
                            pos < np <= n,
                            n == self.chars@.len(),
                            forall|k: int| pos <= k < np ==> self.chars@[k] == ' ',
                            spaces_end(self.chars@, np as int) == spaces_end(self.chars@, pos + 1),
                        decreases n - np,
                    {
                        np += 1;
                    }
                    if np < n && self.chars[np] == '#' {
                        self.pos = self.skip_line(np, np);
                        continue;
                    }
                    if np >= n {
                        self.pos = np;
                        continue;
                    }
                    if self.chars[np] == '\n' {
                        self.pos = np + 1;
                        continue;
                    }
                    let indent = self.columns[np] - 1;
                    let cur = self.indents[self.indents.len() - 1];
                    if indent == cur {
                        self.pos = np;
                        continue;
                    }
                    let p = self.position_of(np);
                    if indent > cur {
                        self.indents.push(indent);
                        self.pos = np;
                        assert(self.indents@.drop_last() == old(self).indents@);
                        return Ok(Token { kind: TokenType::Indent, text: String::new(), position: p, start: np });
                    }
                    self.indents.pop();
                    let nind = self.indents[self.indents.len() - 1];
                    if nind < indent {
                        self.indents.push(cur);
                        assert(self.indents@ == old(self).indents@);
                        return Err(LexError { kind: LexErrorKind::WrongIndentation, position: p });
                    }
                    if nind == indent {
                        self.pos = np;
                    }
                    return Ok(Token { kind: TokenType::Dedent, text: String::new(), position: p, start: np });
                }
                if ch == '#' && col == 1 {
                    self.pos = self.skip_line(pos, pos);
                    continue;
                }
                if ch != ' ' && col == 1 && self.braces.len() == 0 && self.indents.len() > 1 {
                    self.indents.pop();
                    let p = self.position_of(pos);
                    return Ok(Token { kind: TokenType::Dedent, text: String::new(), position: p, start: pos });
                }
            } else {
                let p = self.end;
                if self.indents.len() > 1 {
                    self.indents.pop();
                    return Ok(Token { kind: TokenType::Dedent, text: String::new(), position: p, start: pos });
                }
                return Ok(Token { kind: TokenType::Eof, text: String::new(), position: p, start: pos });
            }
            assert(lex_at(s0, pos as int) == lex_token(s0, pos as int));
            let ch = self.chars[pos];
            let col = self.columns[pos];
            self.pos = pos + 1;
            if ch == '\n' {
                if col == 1 {
                    continue;
                }
                if self.braces.len() == 0 {
                    let p = self.position_of(pos);
                    let mut text = String::new();
                    crate::util::push_char(&mut text, '\n');
                    return Ok(Token { kind: TokenType::Newline, text, position: p, start: pos });
                }
                continue;
            }
            if ch == '(' || ch == '{' || ch == '[' {
                let kind = if ch == '(' {
                    TokenType::OpenParen
                } else if ch == '{' {
                    TokenType::OpenBrace
                } else {
                    TokenType::OpenBracket
                };
                self.braces.push(ch);
                let t = self.token(kind, pos, pos + 1);
                assert(t.text@ =~= seq![ch]);
                return Ok(t);
            }
            if ch == ')' || ch == '}' || ch == ']' {
                let (kind, open) = if ch == ')' {
                    (TokenType::CloseParen, '(')
                } else if ch == '}' {
                    (TokenType::CloseBrace, '{')
                } else {
                    (TokenType::CloseBracket, '[')
                };
                let nb = self.braces.len();
                if nb > 0 && self.braces[nb - 1] == open {
                    self.braces.pop();
                    let t = self.token(kind, pos, pos + 1);
                    assert(t.text@ =~= seq![ch]);
                    return Ok(t);
                }
                let p = self.position_of(pos);
                self.pos = pos;
                assert(closer_of_char(old(self).chars@[pos as int]) == Some(open));
                assert(unmatched_closer(old(self).source()[pos as int], old(self).open_brackets()));
                return Err(LexError { kind: LexErrorKind::UnmatchedBracket, position: p });
            }
            if self.mode == Mode::Css && (('a' <= ch && ch <= 'z') || ('A' <= ch && ch <= 'Z') || ('0' <= ch && ch <= '9') || ch == '_' || ch == '-') {
                let end = self.scan(pos + 1, CharClass::CssWord);
                let t = self.token(TokenType::CssWord, pos, end);
                self.pos = end;
                if col == 1 && eq_str(&t.text, "html") {
                    proof {
                        reveal_strlit("html");
                        reveal_strlit("css");
                        assert(keyword_kind(t.text@) == TokenType::Html);
                    }
                    self.mode = Mode::Normal;
                    return Ok(Token { kind: TokenType::Html, ..t });
                }
                return Ok(t);
            }
            if ch == ':' || ch == '.' || ch == '=' || ch == ',' || ch == '-' || ch == '+' || ch == '*' || ch == '/' || ch == '?' || ch == '>' || ch == '<' || ch == '!' {
                let next_ch = if pos + 1 < n { self.chars[pos + 1] } else { ' ' };
                let (kind, len) = if ch == '+' {
                    (TokenType::Plus, 1)
                } else if ch == '*' {
                    (TokenType::Multiply, 1)
                } else if ch == '/' {
                    (TokenType::Divide, 1)
                } else if ch == '?' {
                    (TokenType::Question, 1)
                } else if ch == ':' {
                    (TokenType::Colon, 1)
                } else if ch == '.' {
                    (TokenType::Dot, 1)
                } else if ch == ',' {
                    (TokenType::Comma, 1)
                } else if ch == '=' {
                    if next_ch == '=' { (TokenType::Eq, 2) } else { (TokenType::Equals, 1) }
                } else if ch == '!' {
                    if next_ch == '=' { (TokenType::NotEq, 2) } else { (TokenType::Not, 1) }
                } else if ch == '>' {
                    if next_ch == '=' { (TokenType::GreaterEq, 2) } else { (TokenType::Greater, 1) }
                } else if ch == '<' {
                    if next_ch == '=' { (TokenType::LessEq, 2) } else { (TokenType::Less, 1) }
                } else {
                    if next_ch == '>' { (TokenType::ArrowRight, 2) } else { (TokenType::Dash, 1) }
                };
                let len: usize = len;
                self.pos = pos + len;
                let t = self.token(kind, pos, pos + len);
                proof {
                    if len == 1 {
                        assert(t.text@ =~= seq![ch]);
                    } else {
                        assert(t.text@ =~= seq![ch, next_ch]);
                    }
                    assert(punct_kind(t.text@) == Some(kind));
                }
                return Ok(t);
            }
            if ch == '#' {
                self.pos = self.skip_line(pos, pos + 1);
                if self.braces.len() == 0 {
                    let p = self.position_of(pos);
                    let mut text = String::new();
                    crate::util::push_char(&mut text, '\n');
                    return Ok(Token { kind: TokenType::Newline, text, position: p, start: pos });
                }
                continue;
            }
            if ch == '"' || ch == '\'' {
                let mut i = pos + 1;
                let mut done = false;
                while i < n && !done
                    invariant
                        pos < i <= n,
                        n == self.chars@.len(),
                        done ==> i == string_end(self.chars@, pos + 1, ch),
                        !done ==> string_end(self.chars@, i as int, ch) == string_end(self.chars@, pos + 1, ch),
                    decreases n - i + if done { 0int } else { 1int },
                {
                    let c = self.chars[i];
                    if c == ch {
                        i += 1;
                        done = true;
                    } else if c == '\\' && i + 1 < n {
                        i += 2;
                    } else {
                        i += 1;
                    }
                }
                self.pos = i;
                let t = self.token(TokenType::String, pos, i);
                assert(t.text@[0] == ch);
                return Ok(t);
            }
            if ch == ' ' || ch == '\t' {
                continue;
            }
            if self.mode == Mode::Normal && (('a' <= ch && ch <= 'z') || ('A' <= ch && ch <= 'Z') || ch == '_') {
                let end = self.scan(pos + 1, CharClass::Ident);
                let kind = self.keyword(pos, end);
                if kind == TokenType::Css && col == 1 {
                    self.mode = Mode::Css;
                }
                self.pos = end;
                return Ok(self.token(kind, pos, end));
            }
            if '0' <= ch && ch <= '9' {
                let end = self.scan(pos + 1, CharClass::Number);
                self.pos = end;
                return Ok(self.token(TokenType::Number, pos, end));
            }
            let p = self.position_of(pos);
            self.pos = pos;
            return Err(LexError { kind: LexErrorKind::UnexpectedCharacter(ch), position: p });
        }
    }

    fn position_of(&self, i: usize) -> (r: Position)
        requires
            self.wf(),
            i < self.chars@.len(),
        ensures
            r == self.position_at(i as int),
    {
        Position { line: self.lines[i], column: self.columns[i] }
    }

    /// The first index at or after `from` whose character is not of `class`.
    fn scan(&self, from: usize, class: CharClass) -> (r: usize)
        requires
            self.wf(),
            from <= self.chars@.len(),
        ensures
            from <= r <= self.chars@.len(),
            forall|k: int| from <= k < r ==> in_class(#[trigger] self.chars@[k], class),
            r < self.chars@.len() ==> !in_class(self.chars@[r as int], class),
            r == scan_end(self.chars@, from as int, class),
    {
        let mut i = from;
        while i < self.chars.len()
            invariant
                from <= i <= self.chars@.len(),
                forall|k: int| from <= k < i ==> in_class(#[trigger] self.chars@[k], class),
                scan_end(self.chars@, i as int, class) == scan_end(self.chars@, from as int, class),
            decreases self.chars@.len() - i,
        {
            let c = self.chars[i];
            let inside = match class {
                CharClass::CssWord => (('a' <= c && c <= 'z') || ('A' <= c && c <= 'Z') || ('0'
                    <= c && c <= '9') || c == '_' || c == '-' || c == '.'),
                CharClass::Ident => (('a' <= c && c <= 'z') || ('A' <= c && c <= 'Z') || ('0'
                    <= c && c <= '9') || c == '_'),
                CharClass::Number => (('0' <= c && c <= '9') || c == '_' || c == '.'),
            };
            if !inside {
                return i;
            }
            i += 1;
        }
        i
    }

    /// The index just past the next newline at or after `from`, or the end.
    fn skip_line(&self, hash: usize, from: usize) -> (r: usize)
        requires
            self.wf(),
            hash <= from <= self.chars@.len(),
            hash < self.chars@.len(),
            self.chars@[hash as int] == '#',
            forall|m: int| hash <= m < from ==> self.chars@[m] != '\n',
        ensures
            from <= r <= self.chars@.len(),
            r > from || from == self.chars@.len(),
            forall|k: int| from <= k < r ==> #[trigger] insignificant(self.chars@, k),
            r == line_end(self.chars@, from as int),
    {
        let ghost src = self.chars@;
        let mut i = from;
        while i < self.chars.len()
            invariant
                from <= i <= src.len(),
                hash <= from,
                hash < src.len(),
                src[hash as int] == '#',
                src == self.chars@,
                forall|m: int| hash <= m < i ==> src[m] != '\n',
                forall|k: int| from <= k < i ==> #[trigger] insignificant(src, k),
                line_end(src, i as int) == line_end(src, from as int),
            decreases self.chars@.len() - i,
        {
            let c = self.chars[i];
            if c == '\n' {
                assert(insignificant(src, i as int));
                return i + 1;
            }
            assert(src[i as int] != '\n');
            assert(0 <= hash <= i);
            assert(src[hash as int] == '#');
            assert(forall|k: int| hash <= k <= i ==> src[k] != '\n');
            assert(in_comment(src, i as int));
            i += 1;
        }
        i
    }

    fn token(&self, kind: TokenType, start: usize, end: usize) -> (r: Token)
        requires
            self.wf(),
            start < end <= self.chars@.len(),
        ensures
            r.kind == kind,
            r.start == start,
            r.text@ == self.chars@.subrange(start as int, end as int),
            r.position == self.position_at(start as int),
    {
        Token {
            kind,
            text: string_from(&self.chars, start, end),
            position: self.position_of(start),
            start,
        }
    }

    fn keyword(&self, start: usize, end: usize) -> (r: TokenType)
        requires
            self.wf(),
            start <= end <= self.chars@.len(),
        ensures
            r == keyword_kind(self.chars@.subrange(start as int, end as int)),
    {
        let s = string_from(&self.chars, start, end);
        if eq_str(&s, "css") {
            return TokenType::Css;
        }
        if eq_str(&s, "html") {
            return TokenType::Html;
        }
        if eq_str(&s, "import") {
            return TokenType::Import;
        }
        if eq_str(&s, "from") {
            return TokenType::From;
        }
        if eq_str(&s, "if") {
            return TokenType::If;
        }
        if eq_str(&s, "elif") {
            return TokenType::Elif;
        }
        if eq_str(&s, "for") {
            return TokenType::For;
        }
        if eq_str(&s, "in") {
            return TokenType::In;
        }
        if eq_str(&s, "of") {
            return TokenType::Of;
        }
        if eq_str(&s, "as") {
            return TokenType::As;
        }
        if eq_str(&s, "key") {
            return TokenType::Key;
        }
        if eq_str(&s, "else") {
            return TokenType::Else;
        }
        if eq_str(&s, "events") {
            return TokenType::Events;
        }
        if eq_str(&s, "store") {
            return TokenType::Store;
        }
        if eq_str(&s, "let") {
            return TokenType::Let;
        }
        if eq_str(&s, "link") {
            return TokenType::Link;
        }
        if eq_str(&s, "new") {
            return TokenType::New;
        }
        if eq_str(&s, "not") {
            return TokenType::Not;
        }
        if eq_str(&s, "and") {
            return TokenType::And;
        }
        if eq_str(&s, "or") {
            return TokenType::Or;
        }
        TokenType::Ident
    }
}

} // verus!

verus! {

/// How many tokens of `toks` are of kind `k`.
pub open spec fn count_kind(toks: Seq<Token>, k: TokenType) -> nat
    decreases toks.len(),
{
    if toks.len() == 0 {
        0
    } else {
        count_kind(toks.drop_last(), k) + if toks.last().kind == k {
            1nat
        } else {
            0nat
        }
    }
}

/// The brackets left open after `toks`, or `None` when a closing bracket in
/// `toks` does not close the innermost open one.
pub open spec fn bracket_stack(toks: Seq<Token>) -> Option<Seq<char>>
    decreases toks.len(),
{
    if toks.len() == 0 {
        Some(Seq::empty())
    } else {
        match bracket_stack(toks.drop_last()) {
            None => None,
            Some(st) => {
                let k = toks.last().kind;
                if let Some(c) = opener_of(k) {
                    Some(st.push(c))
                } else if let Some(c) = closer_of(k) {
                    if st.len() > 0 && st.last() == c {
                        Some(st.drop_last())
                    } else {
                        None
                    }
                } else {
                    Some(st)
                }
            }
        }
    }
}

/// The index just past the text of a token.
pub open spec fn span_end(t: Token) -> int {
    t.start + t.text@.len()
}

/// Every token that carries source text holds exactly the characters of
/// `src` at its span, the spans come in source order without overlapping,
/// and string tokens open with their quote.
pub open spec fn spans_ok(src: Seq<char>, toks: Seq<Token>) -> bool {
    &&& forall|i: int|
        0 <= i < toks.len() && has_span(#[trigger] toks[i].kind) ==> {
            &&& toks[i].text@.len() > 0
            &&& span_end(toks[i]) <= src.len()
            &&& src.subrange(toks[i].start as int, span_end(toks[i])) == toks[i].text@
        }
    &&& forall|i: int, j: int|
        #![trigger toks[i], toks[j]]
        0 <= i < j < toks.len() && has_span(toks[i].kind) && has_span(toks[j].kind)
            ==> span_end(toks[i]) <= toks[j].start
    &&& forall|i: int|
        0 <= i < toks.len() && #[trigger] toks[i].kind == TokenType::String ==> is_quoted(
            toks[i].text@,
        )
}

/// Whether the character at `i` lies in the span of one of `toks`.
pub open spec fn covered(toks: Seq<Token>, i: int) -> bool {
    exists|t: int|
        0 <= t < toks.len() && has_span(#[trigger] toks[t].kind) && toks[t].start <= i < span_end(toks[t])
}

/// Every character is either insignificant or inside some token's text.
pub open spec fn accounted(src: Seq<char>, toks: Seq<Token>, i: int) -> bool {
    insignificant(src, i) || covered(toks, i)
}

/// No prefix of `toks` holds more `Dedent`s than `Indent`s.
pub open spec fn never_below_base(toks: Seq<Token>) -> bool {
    forall|k: int|
        0 <= k <= toks.len() ==> count_kind(#[trigger] toks.subrange(0, k), TokenType::Dedent) <= count_kind(
            toks.subrange(0, k),
            TokenType::Indent,
        )
}

/// Line breaks and indentation tokens come only while no bracket is open:
/// every `Newline` and `Indent`, and every `Dedent` but those that unwind
/// the levels at the end of the text, follows a prefix whose brackets are
/// all closed.
pub open spec fn outside_brackets(src: Seq<char>, toks: Seq<Token>) -> bool {
    forall|i: int|
        0 <= i < toks.len() && (toks[i].kind == TokenType::Newline || toks[i].kind == TokenType::Indent || (
        toks[i].kind == TokenType::Dedent && toks[i].start != src.len())) ==> bracket_stack(
            #[trigger] toks.subrange(0, i),
        ) == Some(Seq::<char>::empty())
}

/// Whether `toks` is a complete token stream of `src`: it ends with the one
/// end-of-file token, spans are faithful, every closing bracket closes the
/// innermost open one, and indentation is balanced.
pub open spec fn token_stream(src: Seq<char>, toks: Seq<Token>) -> bool {
    &&& toks.len() > 0
    &&& toks.last().kind == TokenType::Eof
    &&& forall|i: int| 0 <= i < toks.len() - 1 ==> (#[trigger] toks[i]).kind != TokenType::Eof
    &&& spans_ok(src, toks)
    &&& outside_brackets(src, toks)
    &&& never_below_base(toks)
    &&& forall|i: int| 0 <= i < toks.len() ==> text_kind_ok(#[trigger] toks[i])
    &&& forall|i: int| 0 <= i < src.len() ==> #[trigger] accounted(src, toks, i)
    &&& bracket_stack(toks) is Some
    &&& count_kind(toks, TokenType::Indent) == count_kind(toks, TokenType::Dedent)
}

/// Tokenizes the whole of `src`, up to and including the end-of-file token.
pub fn tokenize(src: &str) -> (r: Result<Vec<Token>, LexError>)
    ensures
        r matches Ok(toks) ==> token_stream(src@, toks@),
        r matches Err(e) ==> e.kind == LexErrorKind::UnmatchedBracket ==> exists|i: int|
            0 <= i < src@.len() && closer_of_char(#[trigger] src@[i]) is Some,
        r matches Ok(toks) ==> lex_all(start_state(src@)) == Ok::<Seq<TokModel>, LexError>(models(toks@)),
        r matches Err(e) ==> lex_all(start_state(src@)) == Err::<Seq<TokModel>, LexError>(e),
{
    let mut tz = Tokenizer::new(src);
    let mut toks: Vec<Token> = Vec::new();
    assert(models(toks@) =~= Seq::<TokModel>::empty());
    assert(prepend(Seq::empty(), lex_all(tz.state())) == lex_all(tz.state())) by {
        match lex_all(tz.state()) {
            Ok(ts) => {
                assert(Seq::<TokModel>::empty() + ts =~= ts);
            },
            Err(_) => {},
        }
    }
    loop
        invariant
            lex_all(start_state(src@)) == prepend(models(toks@), lex_all(tz.state())),
            tz.wf(),
            tz.source() == src@,
            forall|i: int| 0 <= i < toks@.len() ==> (#[trigger] toks@[i]).kind != TokenType::Eof,
            spans_ok(src@, toks@),
            outside_brackets(src@, toks@),
            never_below_base(toks@),
            forall|i: int|
                0 <= i < toks@.len() && has_span(#[trigger] toks@[i].kind) ==> span_end(toks@[i])
                    <= tz.cursor(),
            bracket_stack(toks@) == Some(tz.open_brackets()),
            forall|i: int| 0 <= i < tz.cursor() ==> #[trigger] accounted(src@, toks@, i),
            forall|i: int| 0 <= i < toks@.len() ==> text_kind_ok(#[trigger] toks@[i]),
            count_kind(toks@, TokenType::Indent) == count_kind(toks@, TokenType::Dedent)
                + tz.levels().len() - 1,
        decreases tz.source().len() - tz.cursor(), tz.levels().len(),
    {
        let ghost before = tz;
        let ghost old_toks = toks@;
        proof {
            reveal(lex_all);
        }
        match tz.next() {
            Err(e) => {
                assert(lex_all(before.state()) == Err::<Seq<TokModel>, LexError>(e));
                return Err(e);
            },
            Ok(t) => {
                proof {
                    let m = model(t);
                    assert(models(old_toks.push(t)) =~= models(old_toks).push(m));
                    if t.kind != TokenType::Eof {
                        assert(progressed(before.state(), tz.state()));
                        match lex_all(tz.state()) {
                            Ok(ts) => {
                                assert(models(old_toks) + (seq![m] + ts) =~= models(old_toks).push(m) + ts);
                            },
                            Err(_) => {},
                        }
                    } else {
                        assert(models(old_toks) + seq![m] =~= models(old_toks).push(m));
                    }
                }
                let kind = t.kind;
                toks.push(t);
                assert(toks@.drop_last() == old_toks);
                assert(never_below_base(toks@)) by {
                    assert forall|k: int| 0 <= k <= toks@.len() implies count_kind(#[trigger] toks@.subrange(0, k), TokenType::Dedent)
                        <= count_kind(toks@.subrange(0, k), TokenType::Indent) by {
                        if k < toks@.len() {
                            assert(toks@.subrange(0, k) =~= old_toks.subrange(0, k));
                        } else {
                            assert(toks@.subrange(0, k) =~= toks@);
                        }
                    }
                }
                assert(outside_brackets(src@, toks@)) by {
                    assert forall|i: int|
                        0 <= i < toks@.len() && (toks@[i].kind == TokenType::Newline || toks@[i].kind == TokenType::Indent || (
                        toks@[i].kind == TokenType::Dedent && toks@[i].start != src@.len())) implies bracket_stack(
                            #[trigger] toks@.subrange(0, i),
                        ) == Some(Seq::<char>::empty()) by {
                        if i < old_toks.len() {
                            assert(toks@.subrange(0, i) =~= old_toks.subrange(0, i));
                            assert(toks@[i] == old_toks[i]);
                        } else {
                            assert(toks@.subrange(0, i) =~= old_toks);
                            assert(before.open_brackets() =~= Seq::<char>::empty());
                        }
                    }
                }
                assert(spans_ok(src@, toks@)) by {
                    assert forall|i: int, j: int|
                        #![trigger toks@[i], toks@[j]]
                        0 <= i < j < toks@.len() && has_span(toks@[i].kind) && has_span(
                            toks@[j].kind,
                        ) implies span_end(toks@[i]) <= toks@[j].start by {
                        if j == toks@.len() - 1 {
                            assert(toks@[i] == old_toks[i]);
                        }
                    }
                }
                assert forall|i: int| 0 <= i < tz.cursor() implies #[trigger] accounted(src@, toks@, i) by {
                    let last = toks@.len() - 1;
                    if i < before.cursor() {
                        assert(accounted(src@, old_toks, i));
                        if covered(old_toks, i) {
                            let w = choose|w: int|
                                0 <= w < old_toks.len() && has_span(#[trigger] old_toks[w].kind) && old_toks[w].start <= i
                                    < span_end(old_toks[w]);
                            assert(toks@[w] == old_toks[w]);
                        }
                    } else if !insignificant(src@, i) {
                        assert(toks@[last] == t);
                        assert(has_span(toks@[last].kind));
                    }
                }
                if kind == TokenType::Eof {
                    return Ok(toks);
                }
            },
        }
    }
}

} // verus!
