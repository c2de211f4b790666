use vstd::prelude::*;

verus! {

/// A selector of a style rule: an optional element, classes, and an
/// optional pseudo-state.
#[derive(Debug)]
pub struct Selector {
    pub element: Option<String>,
    pub classes: Vec<String>,
    pub state: Option<String>,
}

/// A style rule: its selectors and its properties, in order.
#[derive(Debug)]
pub struct Rule {
    pub selectors: Vec<Selector>,
    pub properties: Vec<(String, String)>,
}

/// A parameter of a style block, with its default value as written.
#[derive(Debug)]
pub struct Param {
    pub name: String,
    pub default_value: Option<String>,
}

} // verus!
