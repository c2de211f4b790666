use vstd::prelude::*;
use crate::ast::{Ast, Block};
use crate::css_ast::{Rule, Selector};
use crate::util::{join, join_spec, views};

verus! {

/// Options of the CSS output.
pub struct Settings<'a> {
    /// The scoping class put in every selector.
    pub block_name: &'a str,
    /// Values of style-block parameters given from outside.
    pub vars: &'a Vec<(String, String)>,
}

/// `.c` for each class, one after another.
pub open spec fn class_suffixes(cs: Seq<String>) -> Seq<char>
    decreases cs.len(),
{
    if cs.len() == 0 {
        Seq::empty()
    } else {
        class_suffixes(cs.drop_last()) + "."@ + cs.last()@
    }
}

/// A selector as CSS text: the element (if any), the scoping class, then
/// the selector's own classes.
pub open spec fn selector_text(block: Seq<char>, s: Selector) -> Seq<char> {
    element_text(s.element) + "."@ + block + class_suffixes(s.classes@)
}

/// The element of a selector, or nothing.
pub open spec fn element_text(e: Option<String>) -> Seq<char> {
    match e {
        Some(e) => e@,
        None => Seq::empty(),
    }
}

/// The texts of some selectors.
pub open spec fn selector_texts(block: Seq<char>, s: Seq<Selector>) -> Seq<Seq<char>> {
    s.map_values(|x: Selector| selector_text(block, x))
}

/// The property lines of a rule.
pub open spec fn properties_text(ps: Seq<(String, String)>) -> Seq<char>
    decreases ps.len(),
{
    if ps.len() == 0 {
        Seq::empty()
    } else {
        properties_text(ps.drop_last()) + "    "@ + ps.last().0@ + ": "@ + ps.last().1@ + ";\n"@
    }
}

/// A rule as CSS text: its selectors separated by commas, then its
/// properties in braces, then an empty line.
pub open spec fn rule_text(block: Seq<char>, r: Rule) -> Seq<char> {
    join_spec(selector_texts(block, r.selectors@), ", "@) + " {\n"@ + properties_text(r.properties@) + "}\n\n"@
}

/// The texts of some rules, one after another.
pub open spec fn rules_text(block: Seq<char>, rs: Seq<Rule>) -> Seq<char>
    decreases rs.len(),
{
    if rs.len() == 0 {
        Seq::empty()
    } else {
        rules_text(block, rs.drop_last()) + rule_text(block, rs.last())
    }
}

/// The CSS of the style blocks among `bs`, in order.
pub open spec fn css_text(block: Seq<char>, bs: Seq<Block>) -> Seq<char>
    decreases bs.len(),
{
    if bs.len() == 0 {
        Seq::empty()
    } else {
        css_text(block, bs.drop_last()) + match bs.last() {
            Block::Css(_, rules) => rules_text(block, rules@),
            _ => Seq::empty(),
        }
    }
}

/// A selector as CSS text, scoped by `block_name`.
pub fn selector_to_string(sel: &Selector, block_name: &str) -> (r: String)
    ensures
        r@ == selector_text(block_name@, *sel),
{
    let mut buf = String::new();
    match &sel.element {
        Some(e) => {
            buf.append(e.as_str());
        },
        None => {},
    }
    buf.append(".");
    buf.append(block_name);
    let ghost b0 = buf@;
    let mut i: usize = 0;
    while i < sel.classes.len()
        invariant
            i <= sel.classes@.len(),
            buf@ == b0 + class_suffixes(sel.classes@.subrange(0, i as int)),
        decreases sel.classes.len() - i,
    {
        assert(sel.classes@.subrange(0, i + 1).drop_last() == sel.classes@.subrange(0, i as int));
        buf.append(".");
        buf.append(sel.classes[i].as_str());
        i += 1;
    }
    assert(sel.classes@.subrange(0, sel.classes@.len() as int) == sel.classes@);
    buf
}

/// Writes one rule.
pub fn output_rule(buf: &mut String, rule: &Rule, block_name: &str)
    ensures
        final(buf)@ == old(buf)@ + rule_text(block_name@, *rule),
{
    let ghost b0 = old(buf)@;
    let mut sels: Vec<String> = Vec::new();
    let mut i: usize = 0;
    while i < rule.selectors.len()
        invariant
            i <= rule.selectors@.len(),
            sels@.len() == i,
            forall|k: int| 0 <= k < i ==> (#[trigger] sels@[k])@ == selector_text(block_name@, rule.selectors@[k]),
        decreases rule.selectors.len() - i,
    {
        sels.push(selector_to_string(&rule.selectors[i], block_name));
        i += 1;
    }
    assert(views(sels@) =~= selector_texts(block_name@, rule.selectors@));
    let text = join(&sels, ", ");
    buf.append(text.as_str());
    buf.append(" {\n");
    let ghost b1 = buf@;
    let mut i: usize = 0;
    while i < rule.properties.len()
        invariant
            i <= rule.properties@.len(),
            buf@ == b1 + properties_text(rule.properties@.subrange(0, i as int)),
        decreases rule.properties.len() - i,
    {
        assert(rule.properties@.subrange(0, i + 1).drop_last() == rule.properties@.subrange(0, i as int));
        buf.append("    ");
        buf.append(rule.properties[i].0.as_str());
        buf.append(": ");
        buf.append(rule.properties[i].1.as_str());
        buf.append(";\n");
        i += 1;
    }
    assert(rule.properties@.subrange(0, rule.properties@.len() as int) == rule.properties@);
    buf.append("}\n\n");
    assert(buf@ =~= b0 + rule_text(block_name@, *rule));
}

/// The CSS text of every style block of `ast`, scoped by the block name.
pub fn generate(ast: &Ast, settings: &Settings) -> (r: String)
    ensures
        r@ == css_text(settings.block_name@, ast.blocks@),
{
    let mut buf = String::new();
    let mut i: usize = 0;
    while i < ast.blocks.len()
        invariant
            i <= ast.blocks@.len(),
            buf@ == css_text(settings.block_name@, ast.blocks@.subrange(0, i as int)),
        decreases ast.blocks.len() - i,
    {
        assert(ast.blocks@.subrange(0, i + 1).drop_last() == ast.blocks@.subrange(0, i as int));
        if let Block::Css(_, rules) = &ast.blocks[i] {
            let ghost b1 = buf@;
            let mut j: usize = 0;
            while j < rules.len()
                invariant
                    j <= rules@.len(),
                    buf@ == b1 + rules_text(settings.block_name@, rules@.subrange(0, j as int)),
                decreases rules.len() - j,
            {
                assert(rules@.subrange(0, j + 1).drop_last() == rules@.subrange(0, j as int));
                output_rule(&mut buf, &rules[j], settings.block_name);
                assert(buf@ =~= b1 + rules_text(settings.block_name@, rules@.subrange(0, j + 1)));
                j += 1;
            }
            assert(rules@.subrange(0, rules@.len() as int) == rules@);
        }
        assert(buf@ =~= css_text(settings.block_name@, ast.blocks@.subrange(0, i + 1)));
        i += 1;
    }
    assert(ast.blocks@.subrange(0, ast.blocks@.len() as int) == ast.blocks@);
    buf
}

} // verus!
