use vstd::prelude::*;
use crate::util::push_char;

verus! {

/// The kinds of tokens that the tokenizer produces.
#[derive(Debug, PartialEq, Eq, Structural, Clone, Copy)]
pub enum TokenType {
    Css,
    Html,
    Import,
    From,
    If,
    Elif,
    For,
    In,
    Of,
    Key,
    As,
    Else,
    Events,
    Link,
    Store,
    Let,
    New,
    And,
    Or,
    Not,
    Comma,
    Equals,
    Eq,
    NotEq,
    Greater,
    Less,
    GreaterEq,
    LessEq,
    Colon,
    Dot,
    Dash,
    Plus,
    Multiply,
    Divide,
    Question,
    ArrowRight,
    OpenParen,
    OpenBracket,
    OpenBrace,
    CloseParen,
    CloseBracket,
    CloseBrace,
    Ident,
    CssWord,
    Number,
    String,
    Newline,
    Indent,
    Dedent,
    Eof,
}

/// A line and a column, both counted from one; columns count grapheme clusters.
#[derive(Debug, PartialEq, Eq, Structural, Clone, Copy)]
pub struct Position {
    pub line: usize,
    pub column: usize,
}

/// One token: its kind, its text, where it starts (line and column, and the
/// index of its first character in the source).
#[derive(Debug)]
pub struct Token {
    pub kind: TokenType,
    pub text: String,
    pub position: Position,
    pub start: usize,
}

/// The human-readable name of a token kind, used in syntax errors.
pub open spec fn spec_info(t: TokenType) -> Seq<char> {
    match t {
        TokenType::Css => "css NAME[(PARAMS..)]"@,
        TokenType::Html => "html NAME[(PARAMS)]"@,
        TokenType::OpenParen => "("@,
        TokenType::OpenBracket => "["@,
        TokenType::OpenBrace => "{"@,
        TokenType::CloseParen => ")"@,
        TokenType::CloseBracket => "]"@,
        TokenType::CloseBrace => "}"@,
        TokenType::Ident => "identifier"@,
        TokenType::CssWord => "css word or identifier"@,
        TokenType::Number => "number"@,
        TokenType::String => "quoted string"@,
        TokenType::Newline => "new line"@,
        TokenType::Indent => "indentation"@,
        TokenType::Dedent => "unindent"@,
        TokenType::Comma => "comma"@,
        TokenType::Equals => "equals (assignment)"@,
        TokenType::Eq => "double equals"@,
        TokenType::NotEq => "not equals"@,
        TokenType::Greater => "greater"@,
        TokenType::Less => "less"@,
        TokenType::GreaterEq => "greater or equal"@,
        TokenType::LessEq => "less or equal"@,
        TokenType::Colon => "colon"@,
        TokenType::Dot => "dot"@,
        TokenType::Dash => "dash (i.e. minus)"@,
        TokenType::Plus => "plus"@,
        TokenType::Multiply => "multiply"@,
        TokenType::Divide => "division"@,
        TokenType::Question => "question mark"@,
        TokenType::ArrowRight => "arrow right"@,
        TokenType::Eof => "end of file"@,
        TokenType::Import => "import"@,
        TokenType::From => "from"@,
        TokenType::If => "if"@,
        TokenType::Elif => "elif"@,
        TokenType::For => "for"@,
        TokenType::In => "in"@,
        TokenType::Of => "of"@,
        TokenType::Key => "key"@,
        TokenType::As => "as"@,
        TokenType::Else => "else"@,
        TokenType::Events => "events"@,
        TokenType::Link => "link"@,
        TokenType::Store => "store"@,
        TokenType::Let => "let"@,
        TokenType::New => "new"@,
        TokenType::Not => "not"@,
        TokenType::And => "and"@,
        TokenType::Or => "or"@,
    }
}

impl TokenType {
    /// The name of this kind of token, as syntax errors show it.
    pub fn info(&self) -> (r: &'static str)
        ensures
            r@ == spec_info(*self),
    {
        match *self {
            TokenType::Css => "css NAME[(PARAMS..)]",
            TokenType::Html => "html NAME[(PARAMS)]",
            TokenType::OpenParen => "(",
            TokenType::OpenBracket => "[",
            TokenType::OpenBrace => "{",
            TokenType::CloseParen => ")",
            TokenType::CloseBracket => "]",
            TokenType::CloseBrace => "}",
            TokenType::Ident => "identifier",
            TokenType::CssWord => "css word or identifier",
            TokenType::Number => "number",
            TokenType::String => "quoted string",
            TokenType::Newline => "new line",
            TokenType::Indent => "indentation",
            TokenType::Dedent => "unindent",
            TokenType::Comma => "comma",
            TokenType::Equals => "equals (assignment)",
            TokenType::Eq => "double equals",
            TokenType::NotEq => "not equals",
            TokenType::Greater => "greater",
            TokenType::Less => "less",
            TokenType::GreaterEq => "greater or equal",
            TokenType::LessEq => "less or equal",
            TokenType::Colon => "colon",
            TokenType::Dot => "dot",
            TokenType::Dash => "dash (i.e. minus)",
            TokenType::Plus => "plus",
            TokenType::Multiply => "multiply",
            TokenType::Divide => "division",
            TokenType::Question => "question mark",
            TokenType::ArrowRight => "arrow right",
            TokenType::Eof => "end of file",
            TokenType::Import => "import",
            TokenType::From => "from",
            TokenType::If => "if",
            TokenType::Elif => "elif",
            TokenType::For => "for",
            TokenType::In => "in",
            TokenType::Of => "of",
            TokenType::Key => "key",
            TokenType::As => "as",
            TokenType::Else => "else",
            TokenType::Events => "events",
            TokenType::Link => "link",
            TokenType::Store => "store",
            TokenType::Let => "let",
            TokenType::New => "new",
            TokenType::Not => "not",
            TokenType::And => "and",
            TokenType::Or => "or",
        }
    }
}

/// What a backslash followed by `c` stands for inside a string literal.
pub open spec fn escaped(c: char) -> char {
    if c == 'r' {
        '\r'
    } else if c == 'n' {
        '\n'
    } else if c == 't' {
        '\t'
    } else {
        c
    }
}

/// The value of a string literal's body `s` (the text after the opening
/// quote): escapes are replaced, and the value ends at the first unescaped
/// `quote`, or at the end of `s`.
pub open spec fn unescape_spec(s: Seq<char>, quote: char) -> Seq<char>
    decreases s.len(),
{
    if s.len() == 0 {
        Seq::empty()
    } else if s[0] == '\\' {
        if s.len() == 1 {
            Seq::empty()
        } else {
            seq![escaped(s[1])] + unescape_spec(s.subrange(2, s.len() as int), quote)
        }
    } else if s[0] == quote {
        Seq::empty()
    } else {
        seq![s[0]] + unescape_spec(s.subrange(1, s.len() as int), quote)
    }
}

/// Whether `s` has the shape of a string literal's text: it opens with a quote.
pub open spec fn is_quoted(s: Seq<char>) -> bool {
    s.len() > 0 && (s[0] == '"' || s[0] == '\'')
}

impl Token {
    /// The token's text as an owned string.
    pub fn into_string(self) -> (r: String)
        ensures
            r@ == self.text@,
    {
        self.text
    }

    /// The value of a string-literal token.
    pub fn unescape(&self) -> (r: String)
        requires
            is_quoted(self.text@),
        ensures
            r@ == unescape_spec(self.text@.subrange(1, self.text@.len() as int), self.text@[0]),
    {
        let chars = crate::util::chars_of(self.text.as_str());
        let quote = chars[0];
        let n = chars.len();
        let ghost body = chars@.subrange(1, n as int);
        let mut result = String::new();
        let mut i: usize = 1;
        while i < n
            invariant
                1 <= i <= n,
                n == chars@.len(),
                chars@ == self.text@,
                quote == chars@[0],
                body == chars@.subrange(1, n as int),
                result@ + unescape_spec(chars@.subrange(i as int, n as int), quote)
                    == unescape_spec(body, quote),
            decreases n - i,
        {
            let ghost rest = chars@.subrange(i as int, n as int);
            let ch = chars[i];
            if ch == '\\' {
                if i + 1 < n {
                    let e = chars[i + 1];
                    let v = if e == 'r' {
                        '\r'
                    } else if e == 'n' {
                        '\n'
                    } else if e == 't' {
                        '\t'
                    } else {
                        e
                    };
                    assert(rest.subrange(2, rest.len() as int) == chars@.subrange(i + 2, n as int));
                    push_char(&mut result, v);
                    i += 2;
                } else {
                    return result;
                }
            } else if ch == quote {
                return result;
            } else {
                assert(rest.subrange(1, rest.len() as int) == chars@.subrange(i + 1, n as int));
                push_char(&mut result, ch);
                i += 1;
            }
        }
        assert(chars@.subrange(i as int, n as int).len() == 0);
        result
    }
}

} // verus!
