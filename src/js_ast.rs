use vstd::prelude::*;
pub use crate::html_ast::Comparator;

verus! {

/// A generated JavaScript program: a list of statements.

pub struct Code {
    pub statements: Vec<Statement>,
}

/// A statement of the generated code.

pub enum Statement {
    Expr(Expression),
    Return(Expression),
    Function(String, Vec<Param>, Vec<Statement>),
    Var(String, Expression),
}

/// A formal parameter of a generated function.

pub struct Param {
    pub name: String,
    pub default_value: Option<Expression>,
}

/// An expression of the generated code.

pub enum Expression {
    Str(String),
    Num(String),
    Object(Vec<(String, Expression)>),
    List(Vec<Expression>),
    Name(String),
    Attr(Box<Expression>, String),
    Item(Box<Expression>, Box<Expression>),
    Call(Box<Expression>, Vec<Expression>),
    Function(Option<String>, Vec<Param>, Vec<Statement>),
    AssignAttr(Box<Expression>, String, Box<Expression>),
    Ternary(Box<Expression>, Box<Expression>, Box<Expression>),
    New(Box<Expression>),
    Not(Box<Expression>),
    Or(Box<Expression>, Box<Expression>),
    And(Box<Expression>, Box<Expression>),
    Add(Box<Expression>, Box<Expression>),
    Sub(Box<Expression>, Box<Expression>),
    Div(Box<Expression>, Box<Expression>),
    Mul(Box<Expression>, Box<Expression>),
    Comparison(Comparator, Box<Expression>, Box<Expression>),
}

} // verus!
