use vstd::prelude::*;
use crate::ast::{Ast, Block};
use crate::css_ast::{Rule, Selector};
use crate::util::views;

verus! {

/// The element of a selector that has no class.
pub open spec fn bare_of(s: Selector) -> Set<Seq<char>> {
    if s.classes@.len() == 0 && s.element is Some {
        set![s.element->Some_0@]
    } else {
        Set::empty()
    }
}

/// The bare elements of some selectors.
pub open spec fn bare_selectors(s: Seq<Selector>) -> Set<Seq<char>>
    decreases s.len(),
{
    if s.len() == 0 {
        Set::empty()
    } else {
        bare_selectors(s.drop_last()) + bare_of(s.last())
    }
}

/// The bare elements of some rules.
pub open spec fn bare_rules(r: Seq<Rule>) -> Set<Seq<char>>
    decreases r.len(),
{
    if r.len() == 0 {
        Set::empty()
    } else {
        bare_rules(r.drop_last()) + bare_selectors(r.last().selectors@)
    }
}

/// The element names that the style rules of `b` select without a class.
pub open spec fn bare_blocks(b: Seq<Block>) -> Set<Seq<char>>
    decreases b.len(),
{
    if b.len() == 0 {
        Set::empty()
    } else {
        bare_blocks(b.drop_last()) + match b.last() {
            Block::Css(_, rules) => bare_rules(rules@),
            _ => Set::empty(),
        }
    }
}

/// Whether the strings of `v` are pairwise different.
pub open spec fn distinct(v: Seq<String>) -> bool {
    forall|i: int, j: int| 0 <= i < j < v.len() ==> (#[trigger] v[i])@ != (#[trigger] v[j])@
}

fn add_name(names: &mut Vec<String>, name: &String)
    requires
        distinct(old(names)@),
    ensures
        distinct(final(names)@),
        views(final(names)@).to_set() == views(old(names)@).to_set().insert(name@),
{
    let ghost before = old(names)@;
    let mut i: usize = 0;
    let mut found = false;
    while i < names.len() && !found
        invariant
            i <= names@.len(),
            names@ == before,
            found ==> i < names@.len() && names@[i as int]@ == name@,
            forall|k: int| 0 <= k < i ==> (#[trigger] names@[k])@ != name@,
        decreases names.len() - i + if found { 0int } else { 1int },
    {
        if names[i] == *name {
            found = true;
        } else {
            i += 1;
        }
    }
    if found {
        assert(views(before)[i as int] == name@);
        assert(views(before).to_set().insert(name@) =~= views(before).to_set());
        return;
    }
    names.push(name.clone());
    assert(views(names@) =~= views(before).push(name@));
    assert(views(names@).to_set() =~= views(before).to_set().insert(name@)) by {
        assert forall|x: Seq<char>| views(names@).to_set().contains(x) implies views(before).to_set().insert(name@).contains(x) by {
            let k = choose|k: int| 0 <= k < views(names@).len() && views(names@)[k] == x;
            if k < before.len() {
                assert(views(before)[k] == x);
            }
        }
        assert forall|x: Seq<char>| views(before).to_set().insert(name@).contains(x) implies views(names@).to_set().contains(x) by {
            if x == name@ {
                assert(views(names@)[before.len() as int] == x);
            } else {
                let k = choose|k: int| 0 <= k < views(before).len() && views(before)[k] == x;
                assert(views(names@)[k] == x);
            }
        }
    }
}

/// The element names that the style rules of `ast` select without a
/// class, each once.
pub fn visitor(ast: &Ast) -> (r: Vec<String>)
    ensures
        distinct(r@),
        views(r@).to_set() == bare_blocks(ast.blocks@),
{
    let mut res: Vec<String> = Vec::new();
    let mut i: usize = 0;
    while i < ast.blocks.len()
        invariant
            i <= ast.blocks@.len(),
            distinct(res@),
            views(res@).to_set() == bare_blocks(ast.blocks@.subrange(0, i as int)),
        decreases ast.blocks.len() - i,
    {
        assert(ast.blocks@.subrange(0, i + 1).drop_last() == ast.blocks@.subrange(0, i as int));
        let ghost base = views(res@).to_set();
        if let Block::Css(_, rules) = &ast.blocks[i] {
            let mut j: usize = 0;
            while j < rules.len()
                invariant
                    j <= rules@.len(),
                    distinct(res@),
                    views(res@).to_set() == base + bare_rules(rules@.subrange(0, j as int)),
                decreases rules.len() - j,
            {
                assert(rules@.subrange(0, j + 1).drop_last() == rules@.subrange(0, j as int));
                let ghost base2 = views(res@).to_set();
                let sels = &rules[j].selectors;
                let mut k: usize = 0;
                while k < sels.len()
                    invariant
                        k <= sels@.len(),
                        distinct(res@),
                        views(res@).to_set() == base2 + bare_selectors(sels@.subrange(0, k as int)),
                    decreases sels.len() - k,
                {
                    assert(sels@.subrange(0, k + 1).drop_last() == sels@.subrange(0, k as int));
                    let ghost before = views(res@).to_set();
                    if sels[k].classes.len() == 0 {
                        if let Some(e) = &sels[k].element {
                            add_name(&mut res, e);
                        }
                    }
                    assert(views(res@).to_set() =~= before + bare_of(sels@[k as int]));
                    assert(views(res@).to_set() =~= base2 + bare_selectors(sels@.subrange(0, k + 1)));
                    k += 1;
                }
                assert(sels@.subrange(0, sels@.len() as int) == sels@);
                assert(views(res@).to_set() =~= base + bare_rules(rules@.subrange(0, j + 1)));
                j += 1;
            }
            assert(rules@.subrange(0, rules@.len() as int) == rules@);
        }
        assert(views(res@).to_set() =~= bare_blocks(ast.blocks@.subrange(0, i + 1)));
        i += 1;
    }
    assert(ast.blocks@.subrange(0, ast.blocks@.len() as int) == ast.blocks@);
    res
}


/// `b` is `a` with the class `name` put before its own classes, unless
/// `a` already has that class, in which case `b` is `a` itself.
pub open spec fn selector_scoped(a: Selector, b: Selector, name: Seq<char>) -> bool {
    if views(a.classes@).contains(name) {
        b == a
    } else {
        &&& views(b.classes@) == seq![name] + views(a.classes@)
        &&& b.element == a.element
        &&& b.state == a.state
    }
}

/// `b` is the rule `a` with every selector scoped by `name`.
pub open spec fn rule_scoped(a: Rule, b: Rule, name: Seq<char>) -> bool {
    &&& b.properties == a.properties
    &&& b.selectors@.len() == a.selectors@.len()
    &&& forall|i: int| 0 <= i < a.selectors@.len() ==> selector_scoped(a.selectors@[i], #[trigger] b.selectors@[i], name)
}

/// `b` is the block `a` with every style selector scoped by `name`; other
/// blocks are unchanged.
pub open spec fn block_scoped(a: Block, b: Block, name: Seq<char>) -> bool {
    match a {
        Block::Css(params, rules) => match b {
            Block::Css(params2, rules2) => {
                &&& params2 == params
                &&& rules2@.len() == rules@.len()
                &&& forall|i: int| 0 <= i < rules@.len() ==> rule_scoped(rules@[i], #[trigger] rules2@[i], name)
            },
            _ => false,
        },
        _ => b == a,
    }
}

fn has_class(classes: &Vec<String>, name: &str) -> (r: bool)
    ensures
        r == views(classes@).contains(name@),
{
    let n = crate::util::to_owned_string(name);
    let mut i: usize = 0;
    while i < classes.len()
        invariant
            i <= classes@.len(),
            n@ == name@,
            forall|k: int| 0 <= k < i ==> (#[trigger] classes@[k])@ != name@,
        decreases classes.len() - i,
    {
        if classes[i] == n {
            assert(views(classes@)[i as int] == name@);
            return true;
        }
        i += 1;
    }
    proof {
        if views(classes@).contains(name@) {
            let k = choose|k: int| 0 <= k < views(classes@).len() && views(classes@)[k] == name@;
            assert(classes@[k]@ == name@);
        }
    }
    false
}

fn scope_selector(s: Selector, name: &str) -> (r: Selector)
    ensures
        selector_scoped(s, r, name@),
{
    if has_class(&s.classes, name) {
        return s;
    }
    let Selector { element, mut classes, state } = s;
    let ghost old_classes = classes@;
    let mut nclasses: Vec<String> = Vec::new();
    nclasses.push(crate::util::to_owned_string(name));
    nclasses.append(&mut classes);
    assert(views(nclasses@) =~= seq![name@] + views(old_classes));
    Selector { element, classes: nclasses, state }
}

fn scope_rule(r: Rule, name: &str) -> (out: Rule)
    ensures
        rule_scoped(r, out, name@),
{
    let Rule { mut selectors, properties } = r;
    let ghost orig = selectors@;
    let mut out: Vec<Selector> = Vec::new();
    while selectors.len() > 0
        invariant
            out@.len() + selectors@.len() == orig.len(),
            selectors@ == orig.subrange(out@.len() as int, orig.len() as int),
            forall|i: int| 0 <= i < out@.len() ==> selector_scoped(orig[i], #[trigger] out@[i], name@),
        decreases selectors.len(),
    {
        let ghost k = out@.len();
        let s = selectors.remove(0);
        assert(s == orig[k as int]);
        out.push(scope_selector(s, name));
        assert(selectors@ =~= orig.subrange(out@.len() as int, orig.len() as int));
    }
    Rule { selectors: out, properties }
}

/// Puts the class `name` before the classes of every selector of a style
/// block; other blocks are returned unchanged.
pub fn add_name_to_block(block: Block, name: &str) -> (r: Block)
    ensures
        block_scoped(block, r, name@),
{
    match block {
        Block::Css(params, rules) => {
            let ghost orig = rules@;
            let mut rules = rules;
            let mut out: Vec<Rule> = Vec::new();
            while rules.len() > 0
                invariant
                    out@.len() + rules@.len() == orig.len(),
                    rules@ == orig.subrange(out@.len() as int, orig.len() as int),
                    forall|i: int| 0 <= i < out@.len() ==> rule_scoped(orig[i], #[trigger] out@[i], name@),
                decreases rules.len(),
            {
                let ghost k = out@.len();
                let r = rules.remove(0);
                assert(r == orig[k as int]);
                out.push(scope_rule(r, name));
                assert(rules@ =~= orig.subrange(out@.len() as int, orig.len() as int));
            }
            Block::Css(params, out)
        },
        other => other,
    }
}

/// Scopes every style block of `ast` by the class `name`.
pub fn add_block_name(ast: Ast, name: &str) -> (r: Ast)
    ensures
        r.blocks@.len() == ast.blocks@.len(),
        forall|i: int| 0 <= i < ast.blocks@.len() ==> block_scoped(ast.blocks@[i], #[trigger] r.blocks@[i], name@),
{
    let Ast { mut blocks } = ast;
    let ghost orig = blocks@;
    let mut out: Vec<Block> = Vec::new();
    while blocks.len() > 0
        invariant
            out@.len() + blocks@.len() == orig.len(),
            blocks@ == orig.subrange(out@.len() as int, orig.len() as int),
            forall|i: int| 0 <= i < out@.len() ==> block_scoped(orig[i], #[trigger] out@[i], name@),
        decreases blocks.len(),
    {
        let ghost k = out@.len();
        let b = blocks.remove(0);
        assert(b == orig[k as int]);
        out.push(add_name_to_block(b, name));
        assert(blocks@ =~= orig.subrange(out@.len() as int, orig.len() as int));
    }
    Ast { blocks: out }
}

/// Scoping is idempotent: a selector that was scoped once already holds
/// the scoping class, so scoping it again leaves it as it is; and scoping
/// never drops a class the selector had.
pub proof fn lemma_scoping_idempotent(a: Selector, b: Selector, c: Selector, name: Seq<char>)
    requires
        selector_scoped(a, b, name),
        selector_scoped(b, c, name),
    ensures
        c == b,
        views(b.classes@).contains(name),
        forall|i: int| 0 <= i < a.classes@.len() ==> views(b.classes@).contains(#[trigger] a.classes@[i]@),
{
    if !views(a.classes@).contains(name) {
        assert(views(b.classes@)[0] == name);
        assert forall|i: int| 0 <= i < a.classes@.len() implies views(b.classes@).contains(#[trigger] a.classes@[i]@) by {
            assert(views(b.classes@)[i + 1] == a.classes@[i]@);
        }
    } else {
        assert forall|i: int| 0 <= i < a.classes@.len() implies views(b.classes@).contains(#[trigger] a.classes@[i]@) by {
            assert(views(b.classes@)[i] == a.classes@[i]@);
        }
    }
}

/// Scoping an already scoped block changes none of its selectors.
pub proof fn lemma_block_scoping_idempotent(a: Block, b: Block, c: Block, name: Seq<char>)
    requires
        block_scoped(a, b, name),
        block_scoped(b, c, name),
    ensures
        match (b, c) {
            (Block::Css(pb, rb), Block::Css(pc, rc)) => pc == pb && rc@.len() == rb@.len() && forall|i: int|
                0 <= i < rb@.len() ==> (#[trigger] rc@[i]).properties == rb@[i].properties
                    && rc@[i].selectors@ =~= rb@[i].selectors@,
            _ => c == b,
        },
{
    match a {
        Block::Css(pa, ra) => {
            if let (Block::Css(pb, rb), Block::Css(pc, rc)) = (b, c) {
                assert forall|i: int| 0 <= i < rb@.len() implies (#[trigger] rc@[i]).properties == rb@[i].properties
                    && rc@[i].selectors@ =~= rb@[i].selectors@ by {
                    assert(rule_scoped(ra@[i], rb@[i], name));
                    assert(rule_scoped(rb@[i], rc@[i], name));
                    assert forall|j: int| 0 <= j < rb@[i].selectors@.len() implies rc@[i].selectors@[j] == rb@[i].selectors@[j] by {
                        lemma_scoping_idempotent(ra@[i].selectors@[j], rb@[i].selectors@[j], rc@[i].selectors@[j], name);
                    }
                }
            }
        },
        _ => {},
    }
}

} // verus!
