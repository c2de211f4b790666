use vstd::prelude::*;

verus! {

/// A formal parameter of a markup block.
#[derive(Debug)]
pub struct Param {
    pub name: String,
    pub default_value: Option<String>,
}

/// A comparison operator.
#[derive(Debug, PartialEq, Eq, Structural, Clone, Copy)]
pub enum Comparator {
    Eq,
    NotEq,
    Less,
    LessEq,
    Greater,
    GreaterEq,
}

/// An expression of the markup language.
#[derive(Debug)]
pub enum Expression {
    Name(String),
    Str(String),
    Format(Vec<Fmt>),
    Num(String),
    New(Box<Expression>),
    Not(Box<Expression>),
    And(Box<Expression>, Box<Expression>),
    Or(Box<Expression>, Box<Expression>),
    Attr(Box<Expression>, String),
    Mul(Box<Expression>, Box<Expression>),
    Div(Box<Expression>, Box<Expression>),
    Add(Box<Expression>, Box<Expression>),
    Sub(Box<Expression>, Box<Expression>),
    Comparison(Comparator, Box<Expression>, Box<Expression>),
    Item(Box<Expression>, Box<Expression>),
    Call(Box<Expression>, Vec<Expression>),
    Dict(Vec<(String, Expression)>),
    List(Vec<Expression>),
}

/// Where the events of a link go: a stream, or a stream fed with a mapped value.
#[derive(Debug)]
pub enum LinkDest {
    Stream(Expression),
    Mapping(Expression, Expression),
}

/// One binding of a `link` statement.
#[derive(Debug)]
pub enum Link {
    /// An event name, an optional filter and the destination.
    One(String, Option<Expression>, LinkDest),
    /// Attribute names, each with an optional filter and an optional event
    /// alias, all bound to one destination.
    Multi(Vec<(String, Option<Expression>, Option<String>)>, LinkDest),
}

/// A piece of an interpolated string.
#[derive(Debug)]
pub enum Fmt {
    Raw(String),
    Float(Expression, u32),
    Int(Expression),
    Str(Expression),
}

/// A statement of a markup block.
#[derive(Debug)]
pub enum Statement {
    Element {
        name: String,
        classes: Vec<(String, Option<Expression>)>,
        attributes: Vec<(String, Expression)>,
        body: Vec<Statement>,
    },
    Format(Vec<Fmt>),
    Output(Expression),
    Store(String, Expression),
    Let(String, Expression),
    Link(Vec<Link>),
    Condition(Vec<(Expression, Vec<Statement>)>, Option<Vec<Statement>>),
    ForOf(String, Expression, Vec<Statement>),
}

/// Statements that bind names or events and render nothing themselves.
pub open spec fn is_control(s: Statement) -> bool {
    s is Store || s is Let || s is Link
}

} // verus!
