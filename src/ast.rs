use vstd::prelude::*;
use crate::{css_ast, html_ast};

verus! {

/// One top-level declaration of a source file.
#[derive(Debug)]
pub enum Block {
    Css(Vec<css_ast::Param>, Vec<css_ast::Rule>),
    Html {
        name: String,
        params: Vec<html_ast::Param>,
        events: Vec<String>,
        statements: Vec<html_ast::Statement>,
    },
    ImportModule(String, String),
    ImportVars(Vec<(String, Option<String>)>, String),
}

/// A parsed source file.
#[derive(Debug)]
pub struct Ast {
    pub blocks: Vec<Block>,
}

} // verus!
