use vstd::prelude::*;
use crate::html_ast::{Expression as HExpr, Fmt, Statement as HStmt, is_control};
use crate::js_ast::{Expression as JExpr, Param as JParam, Statement as JStmt};
use crate::util::{decimal, decimal_string, push_char, to_owned_string, views};
use crate::html_ast::{Link, LinkDest};
use crate::ast::{Ast, Block};
use crate::js_ast::Code;

verus! {

/// Whether `j` is the lowering of the markup expression `h`: each node maps
/// to the node of the same kind, and an interpolated string maps as
/// `format_lowered` says.
pub open spec fn expr_lowered(h: HExpr, j: JExpr) -> bool
    decreases h, 0nat,
{
    match h {
        HExpr::Name(a) => j matches JExpr::Name(b) && b@ == a@,
        HExpr::Str(a) => j matches JExpr::Str(b) && b@ == a@,
        HExpr::Num(a) => j matches JExpr::Num(b) && b@ == a@,
        HExpr::Format(items) => format_lowered(items@, j),
        HExpr::New(a) => match j {
            JExpr::New(b) => expr_lowered(*a, *b),
            _ => false,
        },
        HExpr::Not(a) => match j {
            JExpr::Not(b) => expr_lowered(*a, *b),
            _ => false,
        },
        HExpr::And(a, b) => match j {
            JExpr::And(c, d) => expr_lowered(*a, *c) && expr_lowered(*b, *d),
            _ => false,
        },
        HExpr::Or(a, b) => match j {
            JExpr::Or(c, d) => expr_lowered(*a, *c) && expr_lowered(*b, *d),
            _ => false,
        },
        HExpr::Add(a, b) => match j {
            JExpr::Add(c, d) => expr_lowered(*a, *c) && expr_lowered(*b, *d),
            _ => false,
        },
        HExpr::Sub(a, b) => match j {
            JExpr::Sub(c, d) => expr_lowered(*a, *c) && expr_lowered(*b, *d),
            _ => false,
        },
        HExpr::Mul(a, b) => match j {
            JExpr::Mul(c, d) => expr_lowered(*a, *c) && expr_lowered(*b, *d),
            _ => false,
        },
        HExpr::Div(a, b) => match j {
            JExpr::Div(c, d) => expr_lowered(*a, *c) && expr_lowered(*b, *d),
            _ => false,
        },
        HExpr::Comparison(op, a, b) => match j {
            JExpr::Comparison(op2, c, d) => op2 == op && expr_lowered(*a, *c) && expr_lowered(
                *b,
                *d,
            ),
            _ => false,
        },
        HExpr::Attr(a, name) => match j {
            JExpr::Attr(c, n2) => expr_lowered(*a, *c) && n2@ == name@,
            _ => false,
        },
        HExpr::Item(a, b) => match j {
            JExpr::Item(c, d) => expr_lowered(*a, *c) && expr_lowered(*b, *d),
            _ => false,
        },
        HExpr::Call(f, args) => match j {
            JExpr::Call(g, jargs) => expr_lowered(*f, *g) && exprs_lowered(args@, jargs@),
            _ => false,
        },
        HExpr::Dict(items) => match j {
            JExpr::Object(pairs) => entries_lowered(items@, pairs@),
            _ => false,
        },
        HExpr::List(items) => match j {
            JExpr::List(js) => exprs_lowered(items@, js@),
            _ => false,
        },
    }
}

/// Element-wise lowering of a list of expressions.
pub open spec fn exprs_lowered(hs: Seq<HExpr>, js: Seq<JExpr>) -> bool
    decreases hs, 0nat,
{
    if hs.len() == 0 {
        js.len() == 0
    } else {
        js.len() > 0 && exprs_lowered(hs.drop_last(), js.drop_last()) && expr_lowered(
            hs.last(),
            js.last(),
        )
    }
}

/// Lowering of dictionary entries: keys kept, values lowered.
pub open spec fn entries_lowered(hs: Seq<(String, HExpr)>, js: Seq<(String, JExpr)>) -> bool
    decreases hs, 0nat,
{
    if hs.len() == 0 {
        js.len() == 0
    } else {
        js.len() > 0 && entries_lowered(hs.drop_last(), js.drop_last()) && js.last().0@
            == hs.last().0@ && expr_lowered(hs.last().1, js.last().1)
    }
}

/// One piece of an interpolated string: raw text stays a string literal,
/// an interpolated expression is converted with `String(...)`.
pub open spec fn piece_lowered(f: Fmt, j: JExpr) -> bool
    decreases f, 0nat,
{
    match f {
        Fmt::Raw(s) => j matches JExpr::Str(b) && b@ == s@,
        Fmt::Str(e) => string_call(e, j),
        Fmt::Int(e) => string_call(e, j),
        Fmt::Float(e, _) => string_call(e, j),
    }
}

/// `j` is `String(x)` with `x` the lowering of `e`.
pub open spec fn string_call(e: HExpr, j: JExpr) -> bool
    decreases e, 1nat,
{
    match j {
        JExpr::Call(f, args) => *f matches JExpr::Name(n) && n@ == "String"@ && args@.len() == 1
            && expr_lowered(e, args@[0]),
        _ => false,
    }
}

/// An interpolated string: its pieces joined from the left with `+`; with
/// no pieces, the empty string.
pub open spec fn format_lowered(items: Seq<Fmt>, j: JExpr) -> bool
    decreases items, 0nat,
{
    if items.len() == 0 {
        j matches JExpr::Str(b) && b@.len() == 0
    } else if items.len() == 1 {
        piece_lowered(items[0], j)
    } else {
        match j {
            JExpr::Add(a, b) => format_lowered(items.drop_last(), *a) && piece_lowered(
                items.last(),
                *b,
            ),
            _ => false,
        }
    }
}


/// One piece of a node key: literal text, or the value of a variable.
pub enum KeyPart {
    Lit(String),
    Var(String),
}

/// A node key as the concatenation of its pieces.
pub enum KeyPiece {
    Lit(Seq<char>),
    Var(Seq<char>),
}

pub open spec fn piece_of(p: KeyPart) -> KeyPiece {
    match p {
        KeyPart::Lit(s) => KeyPiece::Lit(s@),
        KeyPart::Var(s) => KeyPiece::Var(s@),
    }
}

/// The pieces of an executable key.
pub open spec fn key_view(k: Seq<KeyPart>) -> Seq<KeyPiece> {
    k.map_values(|p: KeyPart| piece_of(p))
}

pub open spec fn piece_lowered_key(p: KeyPiece, j: JExpr) -> bool {
    match p {
        KeyPiece::Lit(s) => j matches JExpr::Str(b) && b@ == s,
        KeyPiece::Var(s) => j matches JExpr::Name(b) && b@ == s,
    }
}

/// `j` computes the key: its pieces joined from the left with `+`.
pub open spec fn key_lowered(k: Seq<KeyPiece>, j: JExpr) -> bool
    decreases k.len(),
{
    if k.len() == 0 {
        false
    } else if k.len() == 1 {
        piece_lowered_key(k[0], j)
    } else {
        match j {
            JExpr::Add(a, b) => key_lowered(k.drop_last(), *a) && piece_lowered_key(k.last(), *b),
            _ => false,
        }
    }
}

/// The key of the branch at `idx` of a node keyed `key`.
pub open spec fn key_num(key: Option<Seq<KeyPiece>>, idx: nat) -> Option<Seq<KeyPiece>> {
    match key {
        Some(k) => Some(k.push(KeyPiece::Lit(seq![':'] + decimal(idx)))),
        None => None,
    }
}

/// The key of the iteration item bound to `name` under a node keyed `key`.
pub open spec fn key_join(key: Option<Seq<KeyPiece>>, name: Seq<char>) -> Seq<KeyPiece> {
    match key {
        Some(k) => k.push(KeyPiece::Lit(seq![':'])).push(KeyPiece::Var(name)),
        None => seq![KeyPiece::Var(name)],
    }
}

/// How many statements of `s` render a node.
pub open spec fn count_renderable(s: Seq<HStmt>) -> nat
    decreases s.len(),
{
    if s.len() == 0 {
        0
    } else {
        count_renderable(s.drop_last()) + if is_control(s.last()) {
            0nat
        } else {
            1nat
        }
    }
}

/// `j` is the lowering of a statement list under an optional key: the one
/// renderable statement itself when there is exactly one, else an object
/// with the key (if any) and a `children` list of every renderable
/// statement's lowering.
pub open spec fn fragment_lowered(sc: Scope, s: Seq<HStmt>, key: Option<Seq<KeyPiece>>, j: JExpr) -> bool
    decreases s, 2nat,
{
    if count_renderable(s) == 1 {
        single_lowered(sc, s, key, j)
    } else {
        match j {
            JExpr::Object(props) => {
                let n = if key is Some {
                    2int
                } else {
                    1int
                };
                &&& props@.len() == n
                &&& key matches Some(k) ==> props@[0].0@ == "key"@ && key_lowered(k, props@[0].1)
                &&& props@[n - 1].0@ == "children"@
                &&& match props@[n - 1].1 {
                    JExpr::List(items) => children_lowered(sc, s, items@),
                    _ => false,
                }
            },
            _ => false,
        }
    }
}

/// `j` lowers the last renderable statement of `s`.
pub open spec fn single_lowered(sc: Scope, s: Seq<HStmt>, key: Option<Seq<KeyPiece>>, j: JExpr) -> bool
    decreases s, 1nat,
{
    if s.len() == 0 {
        false
    } else if is_control(s.last()) {
        single_lowered(sc, s.drop_last(), key, j)
    } else {
        stmt_lowered(sc, s.last(), key, j)
    }
}

/// `items` lowers the renderable statements of `s`, in order, without keys.
pub open spec fn children_lowered(sc: Scope, s: Seq<HStmt>, items: Seq<JExpr>) -> bool
    decreases s, 1nat,
{
    if s.len() == 0 {
        items.len() == 0
    } else if is_control(s.last()) {
        children_lowered(sc, s.drop_last(), items)
    } else {
        items.len() > 0 && children_lowered(sc, s.drop_last(), items.drop_last()) && stmt_lowered(sc, 
            s.last(),
            None,
            items.last(),
        )
    }
}

/// The chain of conditional branches from `idx` on: nested ternaries whose
/// innermost alternative is returned.
pub open spec fn cond_leaf(sc: Scope, 
    branches: Seq<(HExpr, Vec<HStmt>)>,
    idx: nat,
    key: Option<Seq<KeyPiece>>,
    j: JExpr,
) -> Option<JExpr>
    decreases branches, 0nat,
{
    if branches.len() == 0 {
        Some(j)
    } else {
        match j {
            JExpr::Ternary(c, t, f) => if expr_lowered(branches[0].0, *c) && fragment_lowered(sc, 
                branches[0].1@,
                key_num(key, idx),
                *t,
            ) {
                cond_leaf(sc, branches.drop_first(), idx + 1, key, *f)
            } else {
                None
            },
            _ => None,
        }
    }
}

/// `j` is the lowering of one renderable statement under an optional key.
pub open spec fn stmt_lowered(sc: Scope, st: HStmt, key: Option<Seq<KeyPiece>>, j: JExpr) -> bool
    decreases st, 0nat,
{
    match st {
        HStmt::Element { name, classes, attributes, body } => element_lowered(sc, 
            name@,
            classes@,
            attributes@,
            key,
            body@,
            j,
        ),
        HStmt::Format(items) => format_lowered(items@, j),
        HStmt::Output(e) => expr_lowered(e, j),
        HStmt::Condition(branches, fallback) => match cond_leaf(sc, branches@, 0, key, j) {
            Some(leaf) => match fallback {
                Some(body) => fragment_lowered(sc, body@, key_num(key, branches@.len()), leaf),
                None => leaf matches JExpr::Str(e) && e@.len() == 0,
            },
            None => false,
        },
        HStmt::ForOf(name, e, body) => match j {
            JExpr::Call(f, args) => match *f {
                JExpr::Attr(base, m) => {
                    &&& expr_lowered(e, *base)
                    &&& m@ == "map"@
                    &&& args@.len() == 1
                    &&& match args@[0] {
                        JExpr::Function(fname, params, fbody) => {
                            &&& fname is None
                            &&& params@.len() == 1
                            &&& params@[0].name@ == name@
                            &&& params@[0].default_value is None
                            &&& fbody@.len() == 1
                            &&& match fbody@[0] {
                                JStmt::Return(r) => fragment_lowered(sc, 
                                    body@,
                                    Some(key_join(key, name@)),
                                    r,
                                ),
                                _ => false,
                            }
                        },
                        _ => false,
                    }
                },
                _ => false,
            },
            _ => false,
        },
        _ => false,
    }
}

/// A link binding that adds at least one event handler.
pub open spec fn binds_link(l: Link) -> bool {
    match l {
        Link::One(_, _, _) => true,
        Link::Multi(names, _) => names@.len() > 0,
    }
}

/// Statements that add event handlers: `store` (its value's teardown) and
/// a `link` with at least one binding.
pub open spec fn binds_events(s: HStmt) -> bool {
    match s {
        HStmt::Store(_, _) => true,
        HStmt::Link(ls) => exists|k: int| 0 <= k < ls@.len() && binds_link(#[trigger] ls@[k]),
        _ => false,
    }
}

/// Whether an element's body needs local bindings before its node.
pub open spec fn needs_prelude(body: Seq<HStmt>) -> bool {
    exists|i: int| 0 <= i < body.len() && prelude_item(#[trigger] body[i])
}

/// Statements that add a local binding: `store`, `let`, and a `link` with
/// a binding of several attributes, whose destination is bound once.
pub open spec fn prelude_item(s: HStmt) -> bool {
    match s {
        HStmt::Store(_, _) => true,
        HStmt::Let(_, _) => true,
        HStmt::Link(ls) => exists|k: int| 0 <= k < ls@.len() && #[trigger] ls@[k] is Multi,
        _ => false,
    }
}

/// Each `store` statement among the first `upto` of `body` has its
/// `store_<name>` property, holding the bound name.
pub open spec fn store_props(body: Seq<HStmt>, props: Seq<(String, JExpr)>, upto: int) -> bool {
    forall|i: int|
        0 <= i < upto && #[trigger] body[i] is Store ==> exists|p: int|
            0 <= p < props.len() && (#[trigger] props[p]).0@ == "store_"@ + body[i]->Store_0@
                && (props[p].1 matches JExpr::Name(v) && v@ == body[i]->Store_0@)
}

/// Each `store` statement among the first `upto` of `body` has its binding
/// among `stmts`.
pub open spec fn store_bindings(body: Seq<HStmt>, stmts: Seq<JStmt>, upto: int) -> bool {
    forall|i: int|
        0 <= i < upto && #[trigger] body[i] is Store ==> exists|k: int|
            0 <= k < stmts.len() && store_binding(body[i]->Store_0@, body[i]->Store_1, #[trigger] stmts[k])
}

/// The tag property first, then the key property when there is a key.
pub open spec fn head_props(name: Seq<char>, key: Option<Seq<KeyPiece>>, props: Seq<(String, JExpr)>) -> bool {
    &&& props.len() >= 1
    &&& props[0].0@ == "tag"@
    &&& props[0].1 matches JExpr::Str(t) && t@ == name
    &&& key matches Some(k) ==> props.len() >= 2 && props[1].0@ == "key"@ && key_lowered(
        k,
        props[1].1,
    )
}

proof fn lemma_props_grow(body: Seq<HStmt>, a: Seq<(String, JExpr)>, b: Seq<(String, JExpr)>, upto: int)
    requires
        store_props(body, a, upto),
        a.len() <= b.len(),
        b.subrange(0, a.len() as int) == a,
    ensures
        store_props(body, b, upto),
{
    assert forall|i: int| 0 <= i < upto && #[trigger] body[i] is Store implies exists|p: int|
            0 <= p < b.len() && (#[trigger] b[p]).0@ == "store_"@ + body[i]->Store_0@
                && (b[p].1 matches JExpr::Name(v) && v@ == body[i]->Store_0@) by {
        let p = choose|p: int|
            0 <= p < a.len() && (#[trigger] a[p]).0@ == "store_"@ + body[i]->Store_0@
                && (a[p].1 matches JExpr::Name(v) && v@ == body[i]->Store_0@);
        assert(b[p] == b.subrange(0, a.len() as int)[p]);
    }
}

/// Each `let` statement among the first `upto` of `body` has its binding
/// among `stmts`: the name bound to the lowered expression.
pub open spec fn let_bindings(body: Seq<HStmt>, stmts: Seq<JStmt>, upto: int) -> bool {
    forall|i: int|
        0 <= i < upto && #[trigger] body[i] is Let ==> exists|k: int|
            0 <= k < stmts.len() && let_binding(body[i]->Let_0@, body[i]->Let_1, #[trigger] stmts[k])
}

/// `st` binds `name` to the lowering of `e`.
pub open spec fn let_binding(name: Seq<char>, e: HExpr, st: JStmt) -> bool {
    st matches JStmt::Var(v, value) && v@ == name && expr_lowered(e, value)
}

/// The names of a node's properties differ from one another, and no
/// `store_` name is one of them.
pub proof fn lemma_literals_differ()
    ensures
        "tag"@ != "events"@,
        "key"@ != "events"@,
        "attrs"@ != "events"@,
        "children"@ != "events"@,
        "attrs"@ != "children"@,
        "tag"@ != "children"@,
        "key"@ != "children"@,
        "tag"@ != "attrs"@,
        "key"@ != "attrs"@,
        forall|v: Seq<char>| #![trigger "store_"@ + v] "store_"@ + v != "events"@ && "store_"@ + v != "children"@
            && "store_"@ + v != "attrs"@,
{
    reveal_strlit("tag");
    reveal_strlit("key");
    reveal_strlit("attrs");
    reveal_strlit("children");
    reveal_strlit("events");
    reveal_strlit("store_");
    assert forall|v: Seq<char>| #![trigger "store_"@ + v] "store_"@ + v != "events"@ && "store_"@ + v != "children"@
        && "store_"@ + v != "attrs"@ by {
        assert(("store_"@ + v)[0] == 's');
    }
    assert("tag"@[0] != "events"@[0]);
    assert("key"@[0] != "events"@[0]);
    assert("attrs"@[0] != "events"@[0]);
    assert("children"@[0] != "events"@[0]);
    assert("attrs"@[0] != "children"@[0]);
    assert("tag"@[0] != "children"@[0]);
    assert("key"@[0] != "children"@[0]);
    assert("tag"@[0] != "attrs"@[0]);
    assert("key"@[0] != "attrs"@[0]);
}

/// No property of `props` is named `n`.
pub open spec fn absent(props: Seq<(String, JExpr)>, n: Seq<char>) -> bool {
    forall|p: int| 0 <= p < props.len() ==> (#[trigger] props[p]).0@ != n
}

/// At most one property of `props` is named `n`.
pub open spec fn at_most_once(props: Seq<(String, JExpr)>, n: Seq<char>) -> bool {
    forall|p1: int, p2: int|
        0 <= p1 < props.len() && 0 <= p2 < props.len() && (#[trigger] props[p1]).0@ == n && (#[trigger] props[p2]).0@ == n
            ==> p1 == p2
}

/// The names that an element's node may have as properties.
pub open spec fn allowed_prop(n: Seq<char>) -> bool {
    ||| n == "tag"@
    ||| n == "key"@
    ||| n == "attrs"@
    ||| n == "children"@
    ||| n == "events"@
    ||| exists|v: Seq<char>| n == "store_"@ + v
}

/// Every property of an element's node has one of the allowed names.
pub open spec fn props_allowed(props: Seq<(String, JExpr)>) -> bool {
    forall|p: int| 0 <= p < props.len() ==> allowed_prop(#[trigger] props[p].0@)
}

proof fn lemma_lets_grow(body: Seq<HStmt>, a: Seq<JStmt>, b: Seq<JStmt>, upto: int)
    requires
        let_bindings(body, a, upto),
        a.len() <= b.len(),
        b.subrange(0, a.len() as int) == a,
    ensures
        let_bindings(body, b, upto),
{
    assert forall|i: int| 0 <= i < upto && #[trigger] body[i] is Let implies exists|k: int|
            0 <= k < b.len() && let_binding(body[i]->Let_0@, body[i]->Let_1, #[trigger] b[k]) by {
        let k = choose|k: int|
            0 <= k < a.len() && let_binding(body[i]->Let_0@, body[i]->Let_1, #[trigger] a[k]);
        assert(b[k] == b.subrange(0, a.len() as int)[k]);
    }
}

proof fn lemma_bindings_grow(body: Seq<HStmt>, a: Seq<JStmt>, b: Seq<JStmt>, upto: int)
    requires
        store_bindings(body, a, upto),
        a.len() <= b.len(),
        b.subrange(0, a.len() as int) == a,
    ensures
        store_bindings(body, b, upto),
{
    assert forall|i: int| 0 <= i < upto && #[trigger] body[i] is Store implies exists|k: int|
            0 <= k < b.len() && store_binding(body[i]->Store_0@, body[i]->Store_1, #[trigger] b[k]) by {
        let k = choose|k: int|
            0 <= k < a.len() && store_binding(body[i]->Store_0@, body[i]->Store_1, #[trigger] a[k]);
        assert(b[k] == b.subrange(0, a.len() as int)[k]);
    }
}

/// The property names of an object literal, in order.
pub open spec fn entry_names(entries: Seq<(String, JExpr)>) -> Seq<Seq<char>> {
    entries.map_values(|e: (String, JExpr)| e.0@)
}

/// The properties of an element's node: the tag first, then the key (if
/// any); a `store_<name>` property for each stored name; the attributes
/// when the element has classes or attributes or needs the scoping class;
/// the lowered children when the body renders anything; and the events,
/// one entry per event name that the body binds, in order of first use.
pub open spec fn element_props(sc: Scope, 
    name: Seq<char>,
    classes: Seq<(String, Option<HExpr>)>,
    attrs: Seq<(String, HExpr)>,
    key: Option<Seq<KeyPiece>>,
    body: Seq<HStmt>,
    props: Seq<(String, JExpr)>,
) -> bool
    decreases body, 3nat,
{
    &&& head_props(name, key, props)
    &&& props_allowed(props)
    &&& exists|hs: Seq<(Seq<char>, JExpr)>| #[trigger] body_handlers_ok(body, hs) && events_prop(group(Seq::empty(), hs), props)
    &&& at_most_once(props, "attrs"@)
    &&& at_most_once(props, "children"@)
    &&& at_most_once(props, "events"@)
    &&& !(classes.len() > 0 || attrs.len() > 0 || sc.bare.contains(name)) ==> absent(props, "attrs"@)
    &&& count_renderable(body) == 0 ==> absent(props, "children"@)
    &&& store_props(body, props, body.len() as int)
    &&& (classes.len() > 0 || attrs.len() > 0 || sc.bare.contains(name)) ==> exists|p: int|
        0 <= p < props.len() && (#[trigger] props[p]).0@ == "attrs"@ && attrs_lowered(
            sc.block,
            sc.bare,
            name,
            classes,
            attrs,
            props[p].1,
        )
    &&& (exists|i: int| 0 <= i < body.len() && binds_events(#[trigger] body[i])) ==> exists|p: int|
        0 <= p < props.len() && (#[trigger] props[p]).0@ == "events"@
    &&& add_names(Seq::empty(), body_event_names(body)).len() > 0 ==> exists|p: int|
        0 <= p < props.len() && (#[trigger] props[p]).0@ == "events"@ && (props[p].1 matches JExpr::Object(entries)
            && entry_names(entries@) == add_names(Seq::empty(), body_event_names(body)))
    &&& count_renderable(body) > 0 ==> exists|p: int|
        0 <= p < props.len() && (#[trigger] props[p]).0@ == "children"@ && fragment_lowered(sc, 
            body,
            None,
            props[p].1,
        )
}

/// The binding that a `store` statement becomes: the stored value of the
/// previous node if there is one, else the lowered expression.
pub open spec fn store_binding(name: Seq<char>, e: HExpr, st: JStmt) -> bool {
    match st {
        JStmt::Var(v, value) => v@ == name && match value {
            JExpr::Or(prev, fresh) => expr_lowered(e, *fresh) && match *prev {
                JExpr::And(a, b) => (*a matches JExpr::Name(o) && o@ == "old_node"@) && match *b {
                    JExpr::Attr(c, prop) => (*c matches JExpr::Name(o) && o@ == "old_node"@)
                        && prop@ == "store_"@ + name,
                    _ => false,
                },
                _ => false,
            },
            _ => false,
        },
        _ => false,
    }
}

/// `j` is an element's lowering: with local bindings, a function of the
/// previous node `old_node` that runs them and returns the node; else the
/// node itself.
pub open spec fn element_lowered(sc: Scope, 
    name: Seq<char>,
    classes: Seq<(String, Option<HExpr>)>,
    attrs: Seq<(String, HExpr)>,
    key: Option<Seq<KeyPiece>>,
    body: Seq<HStmt>,
    j: JExpr,
) -> bool
    decreases body, 4nat,
{
    if needs_prelude(body) {
        match j {
            JExpr::Function(fname, params, stmts) => {
                &&& fname is None
                &&& params@.len() == 1
                &&& params@[0].name@ == "old_node"@
                &&& params@[0].default_value is None
                &&& stmts@.len() >= 1
                &&& store_bindings(body, stmts@, body.len() as int)
                &&& let_bindings(body, stmts@, body.len() as int)
                &&& match stmts@.last() {
                    JStmt::Return(JExpr::Object(props)) => element_props(sc, name, classes, attrs, key, body, props@),
                    _ => false,
                }
            },
            _ => false,
        }
    } else {
        match j {
            JExpr::Object(props) => element_props(sc, name, classes, attrs, key, body, props@),
            _ => false,
        }
    }
}

pub open spec fn opt_key(k: Option<Vec<KeyPart>>) -> Option<Seq<KeyPiece>> {
    match k {
        Some(v) => Some(key_view(v@)),
        None => None,
    }
}

/// Keys are never empty.
pub open spec fn key_ok(k: Option<Vec<KeyPart>>) -> bool {
    k matches Some(v) ==> v@.len() > 0
}

fn copy_key(k: &Vec<KeyPart>) -> (r: Vec<KeyPart>)
    ensures
        key_view(r@) == key_view(k@),
{
    let mut r: Vec<KeyPart> = Vec::new();
    let mut i: usize = 0;
    while i < k.len()
        invariant
            i <= k@.len(),
            r@.len() == i,
            forall|j: int| 0 <= j < i ==> piece_of(#[trigger] r@[j]) == piece_of(k@[j]),
        decreases k.len() - i,
    {
        let p = match &k[i] {
            KeyPart::Lit(s) => KeyPart::Lit(s.clone()),
            KeyPart::Var(s) => KeyPart::Var(s.clone()),
        };
        let ghost before = r@;
        r.push(p);
        assert(piece_of(p) == piece_of(k@[i as int]));
        i += 1;
    }
    assert(key_view(r@) =~= key_view(k@));
    r
}

/// The key of the branch at `idx` of a node keyed `key`.
pub fn key_num_exec(key: &Option<Vec<KeyPart>>, idx: usize) -> (r: Option<Vec<KeyPart>>)
    requires
        key_ok(*key),
    ensures
        key_ok(r),
        opt_key(r) == key_num(opt_key(*key), idx as nat),
{
    match key {
        Some(k) => {
            let mut v = copy_key(k);
            let mut t = String::new();
            push_char(&mut t, ':');
            let d = decimal_string(idx);
            t.append(d.as_str());
            v.push(KeyPart::Lit(t));
            assert(key_view(v@) =~= key_view(k@).push(KeyPiece::Lit(seq![':'] + decimal(idx as nat))));
            Some(v)
        },
        None => None,
    }
}

/// The key of the iteration item bound to `name` under a node keyed `key`.
pub fn key_join_exec(key: &Option<Vec<KeyPart>>, name: &String) -> (r: Vec<KeyPart>)
    ensures
        r@.len() > 0,
        key_view(r@) == key_join(opt_key(*key), name@),
{
    match key {
        Some(k) => {
            let mut v = copy_key(k);
            let mut t = String::new();
            push_char(&mut t, ':');
            v.push(KeyPart::Lit(t));
            v.push(KeyPart::Var(name.clone()));
            assert(key_view(v@) =~= key_view(k@).push(KeyPiece::Lit(seq![':'])).push(KeyPiece::Var(name@)));
            v
        },
        None => {
            let mut v: Vec<KeyPart> = Vec::new();
            v.push(KeyPart::Var(name.clone()));
            assert(key_view(v@) =~= seq![KeyPiece::Var(name@)]);
            v
        },
    }
}

/// The expression that computes a key.
pub fn key_expr(parts: &Vec<KeyPart>) -> (r: JExpr)
    requires
        parts@.len() >= 1,
    ensures
        key_lowered(key_view(parts@), r),
{
    let mut acc = match &parts[0] {
        KeyPart::Lit(s) => JExpr::Str(s.clone()),
        KeyPart::Var(s) => JExpr::Name(s.clone()),
    };
    assert(key_view(parts@.subrange(0, 1)) =~= seq![piece_of(parts@[0])]);
    let mut i: usize = 1;
    while i < parts.len()
        invariant
            1 <= i <= parts@.len(),
            key_lowered(key_view(parts@.subrange(0, i as int)), acc),
        decreases parts.len() - i,
    {
        let b = match &parts[i] {
            KeyPart::Lit(s) => JExpr::Str(s.clone()),
            KeyPart::Var(s) => JExpr::Name(s.clone()),
        };
        acc = JExpr::Add(Box::new(acc), Box::new(b));
        assert(key_view(parts@.subrange(0, i + 1)).drop_last() =~= key_view(parts@.subrange(0, i as int)));
        i += 1;
    }
    assert(parts@.subrange(0, parts@.len() as int) == parts@);
    acc
}

fn is_control_exec(st: &HStmt) -> (r: bool)
    ensures
        r == is_control(*st),
{
    match st {
        HStmt::Store(_, _) | HStmt::Let(_, _) | HStmt::Link(_) => true,
        _ => false,
    }
}

proof fn lemma_single(sc: Scope, s: Seq<HStmt>, i: int, key: Option<Seq<KeyPiece>>, j: JExpr)
    requires
        0 <= i < s.len(),
        !is_control(s[i]),
        forall|k: int| i < k < s.len() ==> is_control(#[trigger] s[k]),
        stmt_lowered(sc, s[i], key, j),
    ensures
        single_lowered(sc, s, key, j),
    decreases s.len(),
{
    if i < s.len() - 1 {
        assert(is_control(s[s.len() - 1]));
        lemma_single(sc, s.drop_last(), i, key, j);
    }
}

/// Whether an element gets the scoping class: it has a class, or style
/// rules select its tag without one.
pub open spec fn scoped(bare: Seq<Seq<char>>, name: Seq<char>, classes: Seq<(String, Option<HExpr>)>) -> bool {
    classes.len() > 0 || bare.contains(name)
}

/// The unconditional class names, in order.
pub open spec fn plain_classes(classes: Seq<(String, Option<HExpr>)>) -> Seq<Seq<char>>
    decreases classes.len(),
{
    if classes.len() == 0 {
        Seq::empty()
    } else {
        plain_classes(classes.drop_last()) + if classes.last().1 is None {
            seq![classes.last().0@]
        } else {
            Seq::empty()
        }
    }
}

/// The class names joined into the literal part of the class attribute.
pub open spec fn class_literals(block: Seq<char>, bare: Seq<Seq<char>>, name: Seq<char>, classes: Seq<(String, Option<HExpr>)>) -> Seq<Seq<char>> {
    (if scoped(bare, name, classes) {
        seq![block]
    } else {
        Seq::empty()
    }) + plain_classes(classes)
}

/// Each conditional class becomes `cond ? "name" : ""`, in order.
pub open spec fn cond_pieces(classes: Seq<(String, Option<HExpr>)>, ps: Seq<JExpr>) -> bool
    decreases classes.len(),
{
    if classes.len() == 0 {
        ps.len() == 0
    } else {
        match classes.last().1 {
            Some(c) => ps.len() > 0 && cond_pieces(classes.drop_last(), ps.drop_last()) && match ps.last() {
                JExpr::Ternary(a, b, d) => expr_lowered(c, *a) && (*b matches JExpr::Str(t) && t@ == classes.last().0@) && (*d matches JExpr::Str(e) && e@.len() == 0),
                _ => false,
            },
            None => cond_pieces(classes.drop_last(), ps),
        }
    }
}

/// Each `class` attribute's value, lowered, in order.
pub open spec fn class_attr_pieces(attrs: Seq<(String, HExpr)>, ps: Seq<JExpr>) -> bool
    decreases attrs.len(),
{
    if attrs.len() == 0 {
        ps.len() == 0
    } else if attrs.last().0@ == "class"@ {
        ps.len() > 0 && class_attr_pieces(attrs.drop_last(), ps.drop_last()) && expr_lowered(attrs.last().1, ps.last())
    } else {
        class_attr_pieces(attrs.drop_last(), ps)
    }
}

/// The attributes other than `class`, with their values lowered, in order.
pub open spec fn other_attrs(attrs: Seq<(String, HExpr)>, ps: Seq<(String, JExpr)>) -> bool
    decreases attrs.len(),
{
    if attrs.len() == 0 {
        ps.len() == 0
    } else if attrs.last().0@ == "class"@ {
        other_attrs(attrs.drop_last(), ps)
    } else {
        ps.len() > 0 && other_attrs(attrs.drop_last(), ps.drop_last()) && ps.last().0@ == attrs.last().0@ && expr_lowered(attrs.last().1, ps.last().1)
    }
}

/// How many pieces the literal class names take: one, or none.
pub open spec fn lit_count(lits: Seq<Seq<char>>) -> int {
    if lits.len() > 0 {
        1
    } else {
        0
    }
}

/// The pieces of the class attribute: the joined literal names (if any),
/// then the conditional classes, then the `class` attribute values.
pub open spec fn class_pieces(lits: Seq<Seq<char>>, classes: Seq<(String, Option<HExpr>)>, attrs: Seq<(String, HExpr)>, ps: Seq<JExpr>) -> bool {
    let off = lit_count(lits);
    &&& off <= ps.len()
    &&& lits.len() > 0 ==> (ps[0] matches JExpr::Str(t) && t@ == crate::util::join_spec(lits, " "@))
    &&& exists|m: int| off <= m <= ps.len() && #[trigger] cond_pieces(classes, ps.subrange(off, m)) && class_attr_pieces(attrs, ps.subrange(m, ps.len() as int))
}

/// Whether the class attribute has any piece.
pub open spec fn has_class_entry(lits: Seq<Seq<char>>, classes: Seq<(String, Option<HExpr>)>, attrs: Seq<(String, HExpr)>) -> bool {
    ||| lits.len() > 0
    ||| exists|i: int| 0 <= i < classes.len() && (#[trigger] classes[i]).1 is Some
    ||| exists|i: int| 0 <= i < attrs.len() && (#[trigger] attrs[i]).0@ == "class"@
}

proof fn lemma_class_pieces(lits: Seq<Seq<char>>, classes: Seq<(String, Option<HExpr>)>, attrs: Seq<(String, HExpr)>, ps: Seq<JExpr>, off: int, m: int)
    requires
        off == if lits.len() > 0 { 1int } else { 0int },
        off <= m <= ps.len(),
        lits.len() > 0 ==> (ps[0] matches JExpr::Str(t) && t@ == crate::util::join_spec(lits, " "@)),
        cond_pieces(classes, ps.subrange(off, m)),
        class_attr_pieces(attrs, ps.subrange(m, ps.len() as int)),
    ensures
        class_pieces(lits, classes, attrs, ps),
{
    assert(cond_pieces(classes, ps.subrange(lit_count(lits), m)));
}

/// `j` adds up the pieces from the left with a space between each two.
pub open spec fn spaced_sum(ps: Seq<JExpr>, j: JExpr) -> bool
    decreases ps.len(),
{
    if ps.len() == 0 {
        false
    } else if ps.len() == 1 {
        j == ps[0]
    } else {
        match j {
            JExpr::Add(a, b) => *b == ps.last() && match *a {
                JExpr::Add(c, sp) => (*sp matches JExpr::Str(t) && t@ == " "@) && spaced_sum(ps.drop_last(), *c),
                _ => false,
            },
            _ => false,
        }
    }
}

/// The attributes object of an element: the other attributes, then a
/// `class` entry when there is anything to put in it.
pub open spec fn attrs_lowered(block: Seq<char>, bare: Seq<Seq<char>>, name: Seq<char>, classes: Seq<(String, Option<HExpr>)>, attrs: Seq<(String, HExpr)>, j: JExpr) -> bool {
    match j {
        JExpr::Object(props) => {
            let lits = class_literals(block, bare, name, classes);
            if has_class_entry(lits, classes, attrs) {
                &&& props@.len() >= 1
                &&& other_attrs(attrs, props@.drop_last())
                &&& props@.last().0@ == "class"@
                &&& exists|ps: Seq<JExpr>| #[trigger] class_pieces(lits, classes, attrs, ps) && spaced_sum(ps, props@.last().1)
            } else {
                other_attrs(attrs, props@)
            }
        },
        _ => false,
    }
}

proof fn lemma_cond_pieces_len(classes: Seq<(String, Option<HExpr>)>, ps: Seq<JExpr>)
    requires
        cond_pieces(classes, ps),
    ensures
        ps.len() > 0 <==> exists|i: int| 0 <= i < classes.len() && (#[trigger] classes[i]).1 is Some,
    decreases classes.len(),
{
    if classes.len() > 0 {
        let c = classes.drop_last();
        if classes.last().1 is Some {
            lemma_cond_pieces_len(c, ps.drop_last());
            assert(classes[classes.len() - 1].1 is Some);
        } else {
            lemma_cond_pieces_len(c, ps);
            if exists|i: int| 0 <= i < classes.len() && (#[trigger] classes[i]).1 is Some {
                let i = choose|i: int| 0 <= i < classes.len() && (#[trigger] classes[i]).1 is Some;
                assert(c[i] == classes[i]);
            }
            assert forall|i: int| 0 <= i < c.len() && (#[trigger] c[i]).1 is Some implies exists|k: int| 0 <= k < classes.len() && (#[trigger] classes[k]).1 is Some by {
                assert(classes[i] == c[i]);
            }
        }
    }
}

proof fn lemma_class_attr_len(attrs: Seq<(String, HExpr)>, ps: Seq<JExpr>)
    requires
        class_attr_pieces(attrs, ps),
    ensures
        ps.len() > 0 <==> exists|i: int| 0 <= i < attrs.len() && (#[trigger] attrs[i]).0@ == "class"@,
    decreases attrs.len(),
{
    if attrs.len() > 0 {
        let c = attrs.drop_last();
        if attrs.last().0@ == "class"@ {
            lemma_class_attr_len(c, ps.drop_last());
            assert(attrs[attrs.len() - 1].0@ == "class"@);
        } else {
            lemma_class_attr_len(c, ps);
            if exists|i: int| 0 <= i < attrs.len() && (#[trigger] attrs[i]).0@ == "class"@ {
                let i = choose|i: int| 0 <= i < attrs.len() && (#[trigger] attrs[i]).0@ == "class"@;
                assert(c[i] == attrs[i]);
            }
            assert forall|i: int| 0 <= i < c.len() && (#[trigger] c[i]).0@ == "class"@ implies exists|k: int| 0 <= k < attrs.len() && (#[trigger] attrs[k]).0@ == "class"@ by {
                assert(attrs[i] == c[i]);
            }
        }
    }
}

/// The event bindings gathered so far: names with their handlers.
pub open spec fn events_view(ev: Seq<(String, Vec<JExpr>)>) -> Seq<(Seq<char>, Seq<JExpr>)> {
    ev.map_values(|p: (String, Vec<JExpr>)| (p.0@, p.1@))
}

/// Adds a handler for an event: after the handlers already bound to that
/// name, or as a new name at the end.
pub open spec fn add_event_spec(ev: Seq<(Seq<char>, Seq<JExpr>)>, name: Seq<char>, e: JExpr) -> Seq<(Seq<char>, Seq<JExpr>)> {
    if exists|i: int| 0 <= i < ev.len() && (#[trigger] ev[i]).0 == name {
        let i = choose|i: int| 0 <= i < ev.len() && (#[trigger] ev[i]).0 == name && forall|k: int| 0 <= k < i ==> (#[trigger] ev[k]).0 != name;
        ev.update(i, (name, ev[i].1.push(e)))
    } else {
        ev.push((name, seq![e]))
    }
}

/// The event handlers gathered from the pairs `hs` (event name and
/// handler, in order of binding), on top of `acc`.
pub open spec fn group(acc: Seq<(Seq<char>, Seq<JExpr>)>, hs: Seq<(Seq<char>, JExpr)>) -> Seq<(Seq<char>, Seq<JExpr>)>
    decreases hs.len(),
{
    if hs.len() == 0 {
        acc
    } else {
        add_event_spec(group(acc, hs.drop_last()), hs.last().0, hs.last().1)
    }
}

/// Gathering two runs of handlers is gathering their concatenation.
pub proof fn lemma_group_concat(acc: Seq<(Seq<char>, Seq<JExpr>)>, a: Seq<(Seq<char>, JExpr)>, b: Seq<(Seq<char>, JExpr)>)
    ensures
        group(acc, a + b) == group(group(acc, a), b),
    decreases b.len(),
{
    if b.len() == 0 {
        assert(a + b =~= a);
    } else {
        lemma_group_concat(acc, a, b.drop_last());
        assert((a + b).drop_last() =~= a + b.drop_last());
        assert((a + b).last() == b.last());
    }
}

/// The handler of a single binding: the destination's lowering composed as
/// `link_lowered` says.
pub open spec fn one_handler(f: Option<HExpr>, d: LinkDest, h: JExpr) -> bool {
    match d {
        LinkDest::Stream(x) => exists|jx: JExpr| #[trigger] expr_lowered(x, jx) && link_lowered(jx, f, None, h),
        LinkDest::Mapping(v, x) => exists|jx: JExpr| #[trigger] expr_lowered(x, jx) && link_lowered(jx, f, Some(&v), h),
    }
}

/// The mapped value of a destination, if any.
pub open spec fn map_of(d: LinkDest) -> Option<HExpr> {
    match d {
        LinkDest::Stream(_) => None,
        LinkDest::Mapping(v, _) => Some(v),
    }
}

/// The stream of a destination.
pub open spec fn target_of(d: LinkDest) -> HExpr {
    match d {
        LinkDest::Stream(x) => x,
        LinkDest::Mapping(_, x) => x,
    }
}

/// The handler of one attribute of a multiple binding whose destination is
/// bound to the local `v`: `<v>.<attr>` composed as `link_lowered` says.
pub open spec fn multi_handler(v: Seq<char>, t: (String, Option<HExpr>, Option<String>), d: LinkDest, h: JExpr) -> bool {
    exists|base: JExpr|
        #![trigger link_lowered(base, t.1, None, h)]
        #![trigger link_lowered(base, t.1, Some(&map_of(d)->Some_0), h)]
        (base matches JExpr::Attr(b, a) && (*b matches JExpr::Name(vn) && vn@ == v) && a@ == t.0@) && match map_of(d) {
            Some(m) => link_lowered(base, t.1, Some(&m), h),
            None => link_lowered(base, t.1, None, h),
        }
}

/// The handlers that one link binding adds, in order.
pub open spec fn link_handlers_ok(l: Link, seg: Seq<(Seq<char>, JExpr)>) -> bool {
    match l {
        Link::One(ev, f, d) => seg.len() == 1 && seg[0].0 == ev@ && one_handler(f, d, seg[0].1),
        Link::Multi(names, d) => {
            &&& seg.len() == names@.len()
            &&& exists|v: Seq<char>| #![trigger multi_var(v, d)] multi_var(v, d) && forall|j: int|
                0 <= j < names@.len() ==> (#[trigger] seg[j]).0 == multi_event_name(names@[j])
                    && multi_handler(v, names@[j], d, seg[j].1)
        },
    }
}

/// The local that holds a multiple binding's destination has a name.
pub open spec fn multi_var(v: Seq<char>, d: LinkDest) -> bool {
    v.len() > 0
}

/// The handlers that a list of link bindings adds, in order.
pub open spec fn links_handlers_ok(ls: Seq<Link>, hs: Seq<(Seq<char>, JExpr)>) -> bool
    decreases ls.len(),
{
    if ls.len() == 0 {
        hs.len() == 0
    } else {
        exists|k: int|
            #![trigger hs.subrange(0, k)]
            0 <= k <= hs.len() && links_handlers_ok(ls.drop_last(), hs.subrange(0, k)) && link_handlers_ok(
                ls.last(),
                hs.subrange(k, hs.len() as int),
            )
    }
}

/// The handler a stored value adds: its `owner_destroyed` stream's
/// `handle_event` when it has one, else a function that does nothing.
pub open spec fn destroy_handler(n: Seq<char>, h: JExpr) -> bool {
    match h {
        JExpr::Ternary(c, t, f) => (match *c {
            JExpr::Attr(b, a) => a@ == "owner_destroyed"@ && (*b matches JExpr::Name(x) && x@ == n),
            _ => false,
        }) && (match *t {
            JExpr::Attr(b, a) => a@ == "handle_event"@ && match *b {
                JExpr::Attr(b2, a2) => a2@ == "owner_destroyed"@ && (*b2 matches JExpr::Name(x) && x@ == n),
                _ => false,
            },
            _ => false,
        }) && (*f matches JExpr::Function(fname, ps, body) && fname is None && ps@.len() == 0 && body@.len() == 0),
        _ => false,
    }
}

/// The handlers that one statement of an element body adds, in order.
pub open spec fn stmt_handlers_ok(st: HStmt, seg: Seq<(Seq<char>, JExpr)>) -> bool {
    match st {
        HStmt::Store(n, _) => seg.len() == 1 && seg[0].0 == "$destroyed"@ && destroy_handler(n@, seg[0].1),
        HStmt::Link(ls) => links_handlers_ok(ls@, seg),
        _ => seg.len() == 0,
    }
}

/// The handlers that an element body adds, in order.
pub open spec fn body_handlers_ok(body: Seq<HStmt>, hs: Seq<(Seq<char>, JExpr)>) -> bool
    decreases body.len(),
{
    if body.len() == 0 {
        hs.len() == 0
    } else {
        exists|k: int|
            #![trigger hs.subrange(0, k)]
            0 <= k <= hs.len() && body_handlers_ok(body.drop_last(), hs.subrange(0, k)) && stmt_handlers_ok(
                body.last(),
                hs.subrange(k, hs.len() as int),
            )
    }
}

/// The `events` object of a node: one entry per event name, in order of
/// first binding, whose value is its handler, or the list of its handlers
/// when it has several.
pub open spec fn events_object(groups: Seq<(Seq<char>, Seq<JExpr>)>, entries: Seq<(String, JExpr)>) -> bool {
    &&& entries.len() == groups.len()
    &&& forall|i: int| 0 <= i < entries.len() ==> (#[trigger] entries[i]).0@ == groups[i].0 && event_value(groups[i].1, entries[i].1)
}

/// The `events` property of a node for the gathered handlers `g`: present
/// exactly when some handler was bound, and then as `events_object` says.
pub open spec fn events_prop(g: Seq<(Seq<char>, Seq<JExpr>)>, props: Seq<(String, JExpr)>) -> bool {
    &&& g.len() > 0 ==> exists|p: int|
        0 <= p < props.len() && (#[trigger] props[p]).0@ == "events"@ && (props[p].1 matches JExpr::Object(entries)
            && events_object(g, entries@))
    &&& g.len() == 0 ==> forall|p: int| 0 <= p < props.len() ==> (#[trigger] props[p]).0@ != "events"@
}

/// The names of the events gathered so far, in order.
pub open spec fn event_names_of(ev: Seq<(String, Vec<JExpr>)>) -> Seq<Seq<char>> {
    ev.map_values(|p: (String, Vec<JExpr>)| p.0@)
}

/// `names` with `n` at the end, unless it is there already.
pub open spec fn add_name(names: Seq<Seq<char>>, n: Seq<char>) -> Seq<Seq<char>> {
    if names.contains(n) {
        names
    } else {
        names.push(n)
    }
}

/// `acc` with each of `ns` added in turn.
pub open spec fn add_names(acc: Seq<Seq<char>>, ns: Seq<Seq<char>>) -> Seq<Seq<char>>
    decreases ns.len(),
{
    if ns.len() == 0 {
        acc
    } else {
        add_name(add_names(acc, ns.drop_last()), ns.last())
    }
}

/// The event names of one link binding: its event, or for each attribute
/// its alias or, without one, the attribute's own name.
pub open spec fn one_link_names(l: Link) -> Seq<Seq<char>> {
    match l {
        Link::One(ev, _, _) => seq![ev@],
        Link::Multi(names, _) => names@.map_values(|t: (String, Option<HExpr>, Option<String>)| multi_event_name(t)),
    }
}

/// The event that an attribute of a multiple binding is bound to.
pub open spec fn multi_event_name(t: (String, Option<HExpr>, Option<String>)) -> Seq<char> {
    match t.2 {
        Some(a) => a@,
        None => t.0@,
    }
}

/// The event names that a list of link bindings uses, in order.
pub open spec fn link_event_names(ls: Seq<Link>) -> Seq<Seq<char>>
    decreases ls.len(),
{
    if ls.len() == 0 {
        Seq::empty()
    } else {
        link_event_names(ls.drop_last()) + one_link_names(ls.last())
    }
}

/// The event names that an element body binds, in order: `$destroyed` for
/// each stored value, and the events of its links.
pub open spec fn body_event_names(body: Seq<HStmt>) -> Seq<Seq<char>>
    decreases body.len(),
{
    if body.len() == 0 {
        Seq::empty()
    } else {
        body_event_names(body.drop_last()) + match body.last() {
            HStmt::Store(_, _) => seq!["$destroyed"@],
            HStmt::Link(ls) => link_event_names(ls@),
            _ => Seq::empty(),
        }
    }
}

/// Adding two runs of names is adding their concatenation.
pub proof fn lemma_add_names_concat(acc: Seq<Seq<char>>, a: Seq<Seq<char>>, b: Seq<Seq<char>>)
    ensures
        add_names(acc, a + b) == add_names(add_names(acc, a), b),
    decreases b.len(),
{
    if b.len() == 0 {
        assert(a + b =~= a);
    } else {
        lemma_add_names_concat(acc, a, b.drop_last());
        assert((a + b).drop_last() =~= a + b.drop_last());
        assert((a + b).last() == b.last());
    }
}

fn add_event(events: &mut Vec<(String, Vec<JExpr>)>, name: String, e: JExpr)
    ensures
        events_view(final(events)@) == add_event_spec(events_view(old(events)@), name@, e),
        event_names_of(final(events)@) == add_name(event_names_of(old(events)@), name@),
        final(events)@.len() >= old(events)@.len(),
        final(events)@.len() > 0,
{
    let ghost names0 = event_names_of(old(events)@);
    let ghost ev = events_view(old(events)@);
    let ghost ge = e;
    let ghost gn = name@;
    let mut i: usize = 0;
    let mut found = false;
    while i < events.len() && !found
        invariant
            i <= events@.len(),
            ev == events_view(events@),
            gn == name@,
            found ==> i < events@.len() && ev[i as int].0 == gn,
            forall|k: int| 0 <= k < i ==> (#[trigger] ev[k]).0 != gn,
        decreases events.len() - i + if found { 0int } else { 1int },
    {
        if events[i].0 == name {
            found = true;
        } else {
            i += 1;
        }
    }
    if found {
        let ghost e0 = events@;
        let (n, mut v) = events.remove(i);
        v.push(e);
        let ghost pair = (n, v);
        events.insert(i, (n, v));
        assert(events@ =~= e0.update(i as int, pair));
        assert(events_view(events@) =~= ev.update(i as int, (gn, ev[i as int].1.push(ge))));
        proof {
            assert(names0[i as int] == gn);
            assert(names0.contains(gn));
            assert(event_names_of(events@) =~= names0);
            assert(0 <= i < ev.len() && ev[i as int].0 == gn && forall|k: int| 0 <= k < i ==> (#[trigger] ev[k]).0 != gn);
            let j = choose|j: int| 0 <= j < ev.len() && (#[trigger] ev[j]).0 == gn && forall|k: int| 0 <= k < j ==> (#[trigger] ev[k]).0 != gn;
            if j < i {
                assert(ev[j].0 != gn);
            }
            if j > i {
                assert(ev[i as int].0 != gn);
            }
        }
    } else {
        let mut v: Vec<JExpr> = Vec::new();
        v.push(e);
        events.push((name, v));
        assert(events_view(events@) =~= ev.push((gn, seq![ge])));
        assert(!names0.contains(gn)) by {
            if names0.contains(gn) {
                let k = choose|k: int| 0 <= k < names0.len() && names0[k] == gn;
                assert(ev[k].0 == gn);
            }
        }
        assert(event_names_of(events@) =~= names0.push(gn));
    }
}

/// The handlers of one event: the handler itself when there is one, else
/// the list of them.
pub open spec fn event_value(hs: Seq<JExpr>, j: JExpr) -> bool {
    if hs.len() == 1 {
        j == hs[0]
    } else {
        j matches JExpr::List(l) && l@ == hs
    }
}

fn finish_events(events: Vec<(String, Vec<JExpr>)>) -> (r: Vec<(String, JExpr)>)
    ensures
        r@.len() == events@.len(),
        forall|i: int| 0 <= i < r@.len() ==> (#[trigger] r@[i]).0@ == events@[i].0@ && event_value(events@[i].1@, r@[i].1),
{
    let ghost orig = events@;
    let mut events = events;
    let mut r: Vec<(String, JExpr)> = Vec::new();
    while events.len() > 0
        invariant
            r@.len() + events@.len() == orig.len(),
            events@ == orig.subrange(r@.len() as int, orig.len() as int),
            forall|i: int| 0 <= i < r@.len() ==> (#[trigger] r@[i]).0@ == orig[i].0@ && event_value(orig[i].1@, r@[i].1),
        decreases events.len(),
    {
        let ghost k = r@.len();
        let (name, mut hs) = events.remove(0);
        assert(orig[k as int] == (name, hs));
        let v = if hs.len() == 1 {
            let x = hs.pop().unwrap();
            x
        } else {
            JExpr::List(hs)
        };
        r.push((name, v));
        assert(events@ =~= orig.subrange(r@.len() as int, orig.len() as int));
    }
    r
}

/// The function `ev => body`, with `body` the lowering of `h`.
pub open spec fn ev_function(h: HExpr, j: JExpr) -> bool {
    match j {
        JExpr::Function(name, params, body) => {
            &&& name is None
            &&& params@.len() == 1
            &&& params@[0].name@ == "ev"@
            &&& body@.len() == 1
            &&& body@[0] matches JStmt::Return(r) && expr_lowered(h, r)
        },
        _ => false,
    }
}

/// `j` is `base.<method>(ev => h)`.
pub open spec fn method_call(base: JExpr, method: Seq<char>, h: HExpr, j: JExpr) -> bool {
    match j {
        JExpr::Call(f, args) => match *f {
            JExpr::Attr(b, m) => *b == base && m@ == method && args@.len() == 1 && ev_function(h, args@[0]),
            _ => false,
        },
        _ => false,
    }
}

/// The stream `x` after the optional mapping of `expr`.
pub open spec fn mapped_ok(x: JExpr, expr: JExpr, map: Option<&HExpr>) -> bool {
    match map {
        Some(m) => method_call(expr, "map"@, *m, x),
        None => x == expr,
    }
}

/// The handler of a link on the stream `expr`.
pub open spec fn link_lowered(expr: JExpr, filter: Option<HExpr>, map: Option<&HExpr>, j: JExpr) -> bool {
    match j {
        JExpr::Attr(f, h) => h@ == "handle_event"@ && match filter {
            Some(c) => match *f {
                JExpr::Call(g, args) => match *g {
                    JExpr::Attr(m, meth) => meth@ == "filter"@ && args@.len() == 1 && ev_function(c, args@[0]) && mapped_ok(*m, expr, map),
                    _ => false,
                },
                _ => false,
            },
            None => mapped_ok(*f, expr, map),
        },
        _ => false,
    }
}

/// The root key of a markup block: `"<block name>:<function name>"`.
pub open spec fn root_key(block_name: Seq<char>, name: Seq<char>) -> Seq<KeyPiece> {
    seq![KeyPiece::Lit(block_name + seq![':'] + name)]
}

/// A parameter default as written becomes a string literal.
pub open spec fn default_kept(d: Option<String>, j: Option<JExpr>) -> bool {
    match d {
        Some(v) => j matches Some(JExpr::Str(t)) && t@ == v@,
        None => j is None,
    }
}

/// The generated function of a markup block: named after it, with its
/// parameters, returning the lowering of its statements under the root key.
pub open spec fn function_lowered(sc: Scope, b: Block, st: JStmt) -> bool {
    match b {
        Block::Html { name, params, events, statements } => match st {
            JStmt::Function(fname, fparams, body) => {
                &&& fname@ == name@
                &&& fparams@.len() == params@.len()
                &&& forall|i: int| 0 <= i < params@.len() ==> (#[trigger] fparams@[i]).name@ == params@[i].name@
                    && default_kept(params@[i].default_value, fparams@[i].default_value)
                &&& body@.len() == 1
                &&& body@[0] matches JStmt::Return(r) && fragment_lowered(sc, statements@, Some(root_key(sc.block, name@)), r)
            },
            _ => false,
        },
        _ => false,
    }
}

/// The functions generated for the markup blocks among `blocks`, in order.
pub open spec fn code_lowered(sc: Scope, blocks: Seq<Block>, out: Seq<JStmt>) -> bool
    decreases blocks.len(),
{
    if blocks.len() == 0 {
        out.len() == 0
    } else if blocks.last() is Html {
        out.len() > 0 && code_lowered(sc, blocks.drop_last(), out.drop_last()) && function_lowered(sc, blocks.last(), out.last())
    } else {
        code_lowered(sc, blocks.drop_last(), out)
    }
}

/// What the lowering of markup depends on besides the markup: the scoping
/// class, and the element names that style rules select without a class.
pub struct Scope {
    pub block: Seq<char>,
    pub bare: Seq<Seq<char>>,
}

/// Lowers markup blocks to generated code, for one block name.
pub struct Generator {
    /// The scoping class, added to the elements that need it.
    pub block_name: String,
    /// Element names that style rules select without a class.
    pub bare_element_names: Vec<String>,
}

fn name_expr(s: &str) -> (r: JExpr)
    ensures
        r matches JExpr::Name(n) && n@ == s@,
{
    JExpr::Name(to_owned_string(s))
}

fn str_expr(s: &str) -> (r: JExpr)
    ensures
        r matches JExpr::Str(n) && n@ == s@,
{
    JExpr::Str(to_owned_string(s))
}

impl Generator {
    /// The scope that this generator lowers markup in.
    pub open spec fn scope(&self) -> Scope {
        Scope { block: self.block_name@, bare: views(self.bare_element_names@) }
    }

    /// Lowers an expression.
    pub fn compile_expr(&self, expr: &HExpr) -> (r: JExpr)
        ensures
            expr_lowered(*expr, r),
        decreases expr,
    {
        match expr {
            HExpr::Name(n) => JExpr::Name(n.clone()),
            HExpr::Str(v) => JExpr::Str(v.clone()),
            HExpr::Num(v) => JExpr::Num(v.clone()),
            HExpr::New(e) => JExpr::New(Box::new(self.compile_expr(e))),
            HExpr::Not(e) => JExpr::Not(Box::new(self.compile_expr(e))),
            HExpr::And(a, b) => JExpr::And(
                Box::new(self.compile_expr(a)),
                Box::new(self.compile_expr(b)),
            ),
            HExpr::Or(a, b) => JExpr::Or(
                Box::new(self.compile_expr(a)),
                Box::new(self.compile_expr(b)),
            ),
            HExpr::Add(a, b) => JExpr::Add(
                Box::new(self.compile_expr(a)),
                Box::new(self.compile_expr(b)),
            ),
            HExpr::Sub(a, b) => JExpr::Sub(
                Box::new(self.compile_expr(a)),
                Box::new(self.compile_expr(b)),
            ),
            HExpr::Mul(a, b) => JExpr::Mul(
                Box::new(self.compile_expr(a)),
                Box::new(self.compile_expr(b)),
            ),
            HExpr::Div(a, b) => JExpr::Div(
                Box::new(self.compile_expr(a)),
                Box::new(self.compile_expr(b)),
            ),
            HExpr::Attr(e, v) => JExpr::Attr(Box::new(self.compile_expr(e)), v.clone()),
            HExpr::Item(e, i) => JExpr::Item(
                Box::new(self.compile_expr(e)),
                Box::new(self.compile_expr(i)),
            ),
            HExpr::Comparison(op, a, b) => JExpr::Comparison(
                *op,
                Box::new(self.compile_expr(a)),
                Box::new(self.compile_expr(b)),
            ),
            HExpr::Call(f, args) => {
                let g = self.compile_expr(f);
                let jargs = self.compile_exprs(args);
                JExpr::Call(Box::new(g), jargs)
            },
            HExpr::Format(items) => self.compile_format(items),
            HExpr::Dict(items) => JExpr::Object(self.compile_entries(items)),
            HExpr::List(items) => JExpr::List(self.compile_exprs(items)),
        }
    }

    fn compile_entries(&self, items: &Vec<(String, HExpr)>) -> (r: Vec<(String, JExpr)>)
        ensures
            entries_lowered(items@, r@),
        decreases items,
    {
        let mut pairs: Vec<(String, JExpr)> = Vec::new();
        let mut i: usize = 0;
        while i < items.len()
            invariant
                i <= items@.len(),
                entries_lowered(items@.subrange(0, i as int), pairs@),
            decreases items.len() - i,
        {
            proof {
                assert(decreases_to!(items => items@[i as int]));
                assert(decreases_to!(items@[i as int] => items@[i as int].1));
            }
            let v = self.compile_expr(&items[i].1);
            let ghost before = pairs@;
            pairs.push((items[i].0.clone(), v));
            assert(pairs@.drop_last() == before);
            assert(items@.subrange(0, i + 1).drop_last() == items@.subrange(0, i as int));
            i += 1;
        }
        assert(items@.subrange(0, items@.len() as int) == items@);
        pairs
    }

    fn compile_exprs(&self, items: &Vec<HExpr>) -> (r: Vec<JExpr>)
        ensures
            exprs_lowered(items@, r@),
        decreases items,
    {
        let mut js: Vec<JExpr> = Vec::new();
        let mut i: usize = 0;
        while i < items.len()
            invariant
                i <= items@.len(),
                exprs_lowered(items@.subrange(0, i as int), js@),
            decreases items.len() - i,
        {
            proof {
                assert(decreases_to!(items => items@[i as int]));
            }
            let v = self.compile_expr(&items[i]);
            let ghost before = js@;
            js.push(v);
            assert(js@.drop_last() == before);
            assert(items@.subrange(0, i + 1).drop_last() == items@.subrange(0, i as int));
            i += 1;
        }
        assert(items@.subrange(0, items@.len() as int) == items@);
        js
    }

    fn compile_piece(&self, f: &Fmt) -> (r: JExpr)
        ensures
            piece_lowered(*f, r),
        decreases f,
    {
        match f {
            Fmt::Raw(x) => JExpr::Str(x.clone()),
            Fmt::Str(e) | Fmt::Int(e) | Fmt::Float(e, _) => {
                let mut args: Vec<JExpr> = Vec::new();
                args.push(self.compile_expr(e));
                JExpr::Call(Box::new(name_expr("String")), args)
            },
        }
    }

    /// Lowers an interpolated string to a left-nested sum of its pieces.
    pub fn compile_format(&self, items: &Vec<Fmt>) -> (r: JExpr)
        ensures
            format_lowered(items@, r),
        decreases items,
    {
        if items.len() == 0 {
            let r = JExpr::Str(String::new());
            return r;
        }
        proof {
            assert(decreases_to!(items => items@[0]));
        }
        let mut acc = self.compile_piece(&items[0]);
        assert(items@.subrange(0, 1)[0] == items@[0]);
        let mut i: usize = 1;
        while i < items.len()
            invariant
                1 <= i <= items@.len(),
                format_lowered(items@.subrange(0, i as int), acc),
            decreases items.len() - i,
        {
            proof {
                assert(decreases_to!(items => items@[i as int]));
            }
            let b = self.compile_piece(&items[i]);
            acc = JExpr::Add(Box::new(acc), Box::new(b));
            assert(items@.subrange(0, i + 1).drop_last() == items@.subrange(0, i as int));
            i += 1;
        }
        assert(items@.subrange(0, items@.len() as int) == items@);
        acc
    }

    /// Lowers a list of statements: the one renderable statement itself, or
    /// an object with the key (if any) and the list of children.
    pub fn fragment(&self, statements: &Vec<HStmt>, key: Option<Vec<KeyPart>>) -> (r: JExpr)
        requires
            key_ok(key),
        ensures
            fragment_lowered(self.scope(), statements@, opt_key(key), r),
        decreases statements, 2nat,
    {
        let ghost s = statements@;
        let mut count: usize = 0;
        let mut last: usize = 0;
        let mut i: usize = 0;
        while i < statements.len()
            invariant
                i <= s.len(),
                s == statements@,
                count == count_renderable(s.subrange(0, i as int)),
                count <= i,
                count > 0 ==> last < i && !is_control(s[last as int]) && forall|k: int|
                    last < k < i ==> is_control(#[trigger] s[k]),
            decreases statements.len() - i,
        {
            assert(s.subrange(0, i + 1).drop_last() == s.subrange(0, i as int));
            if !is_control_exec(&statements[i]) {
                count = count + 1;
                last = i;
            }
            i += 1;
        }
        assert(s.subrange(0, s.len() as int) == s);
        if count == 1 {
            proof {
                assert(decreases_to!(statements => statements@[last as int]));
            }
            let r = self.statement(&statements[last], key);
            proof {
                lemma_single(self.scope(), s, last as int, opt_key(key), r);
            }
            return r;
        }
        let ghost kv = opt_key(key);
        let mut items: Vec<JExpr> = Vec::new();
        let mut i: usize = 0;
        while i < statements.len()
            invariant
                i <= s.len(),
                s == statements@,
                children_lowered(self.scope(), s.subrange(0, i as int), items@),
            decreases statements.len() - i,
        {
            assert(s.subrange(0, i + 1).drop_last() == s.subrange(0, i as int));
            if !is_control_exec(&statements[i]) {
                proof {
                    assert(decreases_to!(statements => statements@[i as int]));
                }
                let c = self.statement(&statements[i], None);
                let ghost before = items@;
                items.push(c);
                assert(items@.drop_last() == before);
            }
            i += 1;
        }
        assert(s.subrange(0, s.len() as int) == s);
        let mut props: Vec<(String, JExpr)> = Vec::new();
        match key {
            Some(k) => {
                props.push((to_owned_string("key"), key_expr(&k)));
            },
            None => {},
        }
        props.push((to_owned_string("children"), JExpr::List(items)));
        JExpr::Object(props)
    }

    fn condition_chain(&self, branches: &Vec<(HExpr, Vec<HStmt>)>, key: &Option<Vec<KeyPart>>, leaf: JExpr) -> (r: JExpr)
        requires
            key_ok(*key),
        ensures
            cond_leaf(self.scope(), branches@, 0, opt_key(*key), r) == Some(leaf),
        decreases branches, 1nat,
    {
        let n = branches.len();
        let mut acc = leaf;
        let ghost kv = opt_key(*key);
        let mut i = n;
        assert(branches@.subrange(n as int, n as int).len() == 0);
        while i > 0
            invariant
                i <= n,
                n == branches@.len(),
                kv == opt_key(*key),
                key_ok(*key),
                cond_leaf(self.scope(), branches@.subrange(i as int, n as int), i as nat, kv, acc) == Some(leaf),
            decreases i,
        {
            let k = i - 1;
            proof {
                assert(decreases_to!(branches => branches@[k as int]));
                assert(decreases_to!(branches@[k as int] => branches@[k as int].1));
            }
            let c = self.compile_expr(&branches[k].0);
            let t = self.fragment(&branches[k].1, key_num_exec(key, k));
            acc = JExpr::Ternary(Box::new(c), Box::new(t), Box::new(acc));
            let ghost sub = branches@.subrange(k as int, n as int);
            assert(sub[0] == branches@[k as int]);
            assert(sub.drop_first() == branches@.subrange(i as int, n as int));
            i = k;
        }
        assert(branches@.subrange(0, n as int) == branches@);
        acc
    }

    /// Lowers one renderable statement under an optional key.
    pub fn statement(&self, st: &HStmt, key: Option<Vec<KeyPart>>) -> (r: JExpr)
        requires
            !is_control(*st),
            key_ok(key),
        ensures
            stmt_lowered(self.scope(), *st, opt_key(key), r),
        decreases st, 0nat,
    {
        match st {
            HStmt::Element { name, classes, attributes, body } => {
                let ghost kv = opt_key(key);
                let r = self.element(name, classes, attributes, key, body);
                assert(element_lowered(self.scope(), name@, classes@, attributes@, kv, body@, r));
                assert(stmt_lowered(self.scope(), *st, kv, r));
                r
            },
            HStmt::Format(items) => self.compile_format(items),
            HStmt::Output(e) => self.compile_expr(e),
            HStmt::Condition(branches, fallback) => {
                let n = branches.len();
                let mut acc = match fallback {
                    Some(body) => self.fragment(body, key_num_exec(&key, n)),
                    None => JExpr::Str(String::new()),
                };
                self.condition_chain(branches, &key, acc)
            },
            HStmt::ForOf(name, e, body) => {
                let base = self.compile_expr(e);
                let sub = key_join_exec(&key, name);
                let inner = self.fragment(body, Some(sub));
                let mut fbody: Vec<JStmt> = Vec::new();
                fbody.push(JStmt::Return(inner));
                let mut params: Vec<JParam> = Vec::new();
                params.push(JParam { name: name.clone(), default_value: None });
                let f = JExpr::Function(None, params, fbody);
                let mut args: Vec<JExpr> = Vec::new();
                args.push(f);
                JExpr::Call(Box::new(JExpr::Attr(Box::new(base), to_owned_string("map"))), args)
            },
            HStmt::Store(_, _) | HStmt::Let(_, _) | HStmt::Link(_) => {
                proof {
                    assert(is_control(*st));
                }
                JExpr::Str(String::new())
            },
        }
    }

    fn is_bare(&self, name: &String) -> (r: bool)
        ensures
            r == views(self.bare_element_names@).contains(name@),
    {
        let mut i: usize = 0;
        while i < self.bare_element_names.len()
            invariant
                i <= self.bare_element_names@.len(),
                forall|k: int| 0 <= k < i ==> (#[trigger] self.bare_element_names@[k])@ != name@,
            decreases self.bare_element_names.len() - i,
        {
            if self.bare_element_names[i] == *name {
                assert(views(self.bare_element_names@)[i as int] == name@);
                return true;
            }
            i += 1;
        }
        proof {
            if views(self.bare_element_names@).contains(name@) {
                let k = choose|k: int| 0 <= k < views(self.bare_element_names@).len() && views(self.bare_element_names@)[k] == name@;
                assert(self.bare_element_names@[k]@ != name@);
            }
        }
        false
    }

    /// Lowers the attributes of an element, merging its classes, the scoping
    /// class and its `class` attributes into one `class` entry.
    pub fn attrs(&self, name: &String, cls: &Vec<(String, Option<HExpr>)>, attrs: &Vec<(String, HExpr)>) -> (r: JExpr)
        ensures
            attrs_lowered(self.block_name@, views(self.bare_element_names@), name@, cls@, attrs@, r),
    {
        let ghost lits_spec = class_literals(self.block_name@, views(self.bare_element_names@), name@, cls@);
        let mut lits: Vec<String> = Vec::new();
        if cls.len() > 0 || self.is_bare(name) {
            lits.push(self.block_name.clone());
        }
        let ghost lit0 = views(lits@);
        let mut conds: Vec<JExpr> = Vec::new();
        let mut i: usize = 0;
        while i < cls.len()
            invariant
                i <= cls@.len(),
                views(lits@) == lit0 + plain_classes(cls@.subrange(0, i as int)),
                cond_pieces(cls@.subrange(0, i as int), conds@),
            decreases cls.len() - i,
        {
            assert(cls@.subrange(0, i + 1).drop_last() == cls@.subrange(0, i as int));
            assert(cls@.subrange(0, i + 1).last() == cls@[i as int]);
            let ghost c0 = conds@;
            match &cls[i].1 {
                Some(cond) => {
                    let c = self.compile_expr(cond);
                    let ghost before = conds@;
                    conds.push(JExpr::Ternary(Box::new(c), Box::new(JExpr::Str(cls[i].0.clone())), Box::new(JExpr::Str(String::new()))));
                    assert(conds@.drop_last() == before);
                },
                None => {
                    let ghost l0 = lits@;
                    lits.push(cls[i].0.clone());
                    assert(views(lits@) =~= views(l0).push(cls@[i as int].0@));
                },
            }
            assert(plain_classes(cls@.subrange(0, i + 1)) == plain_classes(cls@.subrange(0, i as int)) + if cls@[i as int].1 is None {
                seq![cls@[i as int].0@]
            } else {
                Seq::<Seq<char>>::empty()
            });
            assert(views(lits@) =~= lit0 + plain_classes(cls@.subrange(0, i + 1)));
            assert(cond_pieces(cls@.subrange(0, i + 1), conds@));
            i += 1;
        }
        assert(cls@.subrange(0, cls@.len() as int) == cls@);
        assert(views(lits@) == lits_spec);
        let mut other: Vec<(String, JExpr)> = Vec::new();
        let mut cattrs: Vec<JExpr> = Vec::new();
        let mut i: usize = 0;
        while i < attrs.len()
            invariant
                i <= attrs@.len(),
                other_attrs(attrs@.subrange(0, i as int), other@),
                class_attr_pieces(attrs@.subrange(0, i as int), cattrs@),
            decreases attrs.len() - i,
        {
            assert(attrs@.subrange(0, i + 1).drop_last() == attrs@.subrange(0, i as int));
            assert(attrs@.subrange(0, i + 1).last() == attrs@[i as int]);
            let v = self.compile_expr(&attrs[i].1);
            if crate::util::eq_str(&attrs[i].0, "class") {
                let ghost before = cattrs@;
                cattrs.push(v);
                assert(cattrs@.drop_last() == before);
            } else {
                let ghost before = other@;
                other.push((attrs[i].0.clone(), v));
                assert(other@.drop_last() == before);
            }
            i += 1;
        }
        assert(attrs@.subrange(0, attrs@.len() as int) == attrs@);
        let mut pieces: Vec<JExpr> = Vec::new();
        if lits.len() > 0 {
            pieces.push(JExpr::Str(crate::util::join(&lits, " ")));
        }
        let off = pieces.len();
        let ghost p0 = pieces@;
        let ghost cond_seq = conds@;
        let ghost cattr_seq = cattrs@;
        pieces.append(&mut conds);
        let m = pieces.len();
        pieces.append(&mut cattrs);
        let ghost ps = pieces@;
        proof {
            assert(ps.subrange(off as int, m as int) == cond_seq);
            assert(ps.subrange(m as int, ps.len() as int) == cattr_seq);
            assert(views(lits@) == lits_spec);
            assert(off == 1 <==> lits_spec.len() > 0);
            assert(off <= m <= ps.len());
            assert(ps == p0 + cond_seq + cattr_seq);
            if off == 1 {
                assert(ps[0] == p0[0]);
            }
            assert(off <= m <= ps.len() && cond_pieces(cls@, ps.subrange(off as int, m as int)) && class_attr_pieces(attrs@, ps.subrange(m as int, ps.len() as int)));
            assert(lits_spec.len() > 0 ==> (ps[0] matches JExpr::Str(t) && t@ == crate::util::join_spec(lits_spec, " "@)));
            let ghost offi: int = if lits_spec.len() > 0 { 1int } else { 0int };
            assert(offi == off);
            assert(offi <= ps.len());
            assert(exists|mm: int| offi <= mm <= ps.len() && cond_pieces(cls@, ps.subrange(offi, mm)) && class_attr_pieces(attrs@, ps.subrange(mm, ps.len() as int)));
            lemma_class_pieces(lits_spec, cls@, attrs@, ps, offi, m as int);
            lemma_cond_pieces_len(cls@, cond_seq);
            lemma_class_attr_len(attrs@, cattr_seq);
        }
        if pieces.len() > 0 {
            let mut acc = pieces.remove(0);
            let mut k: usize = 1;
            assert(ps.subrange(0, 1)[0] == ps[0]);
            while pieces.len() > 0
                invariant
                    1 <= k <= ps.len(),
                    ps.len() <= usize::MAX,
                    pieces@ == ps.subrange(k as int, ps.len() as int),
                    spaced_sum(ps.subrange(0, k as int), acc),
                decreases pieces.len(),
            {
                let x = pieces.remove(0);
                assert(x == ps[k as int]);
                acc = JExpr::Add(Box::new(JExpr::Add(Box::new(acc), Box::new(str_expr(" ")))), Box::new(x));
                assert(ps.subrange(0, k + 1).drop_last() == ps.subrange(0, k as int));
                k += 1;
                assert(pieces@ =~= ps.subrange(k as int, ps.len() as int));
            }
            assert(ps.subrange(0, ps.len() as int) == ps);
            let ghost before = other@;
            other.push((to_owned_string("class"), acc));
            assert(other@.drop_last() == before);
        }
        JExpr::Object(other)
    }

    /// Composes the handler of a link: the destination's `handle_event`,
    /// after `.map(ev => value)` when the link maps a value and after
    /// `.filter(ev => cond)` when it has a filter.
    pub fn compile_link(&self, expr: JExpr, filter: &Option<HExpr>, map: Option<&HExpr>) -> (r: JExpr)
        ensures
            link_lowered(expr, *filter, map, r),
    {
        let mut e = expr;
        let ghost base = e;
        let ghost mapped = e;
        match map {
            Some(m) => {
                let mut params: Vec<JParam> = Vec::new();
                params.push(JParam { name: to_owned_string("ev"), default_value: None });
                let mut body: Vec<JStmt> = Vec::new();
                body.push(JStmt::Return(self.compile_expr(m)));
                let mut args: Vec<JExpr> = Vec::new();
                args.push(JExpr::Function(None, params, body));
                e = JExpr::Call(Box::new(JExpr::Attr(Box::new(e), to_owned_string("map"))), args);
                proof {
                    mapped = e;
                }
            },
            None => {},
        }
        match filter {
            Some(f) => {
                let mut params: Vec<JParam> = Vec::new();
                params.push(JParam { name: to_owned_string("ev"), default_value: None });
                let mut body: Vec<JStmt> = Vec::new();
                body.push(JStmt::Return(self.compile_expr(f)));
                let mut args: Vec<JExpr> = Vec::new();
                args.push(JExpr::Function(None, params, body));
                e = JExpr::Call(Box::new(JExpr::Attr(Box::new(e), to_owned_string("filter"))), args);
            },
            None => {},
        }
        JExpr::Attr(Box::new(e), to_owned_string("handle_event"))
    }

    fn compile_links(&self, links: &Vec<Link>, statements: &mut Vec<JStmt>, events: &mut Vec<(String, Vec<JExpr>)>) -> (hs: Ghost<Seq<(Seq<char>, JExpr)>>)
        ensures
            events_view(final(events)@) == group(events_view(old(events)@), hs@),
            links_handlers_ok(links@, hs@),
            final(events)@.len() >= old(events)@.len(),
            (exists|k: int| 0 <= k < links@.len() && binds_link(#[trigger] links@[k])) ==> final(events)@.len() > 0,
            event_names_of(final(events)@) == add_names(event_names_of(old(events)@), link_event_names(links@)),
            final(statements)@.len() >= old(statements)@.len(),
            final(statements)@.subrange(0, old(statements)@.len() as int) == old(statements)@,
            final(statements)@.len() > old(statements)@.len() <==> exists|k: int| 0 <= k < links@.len() && #[trigger] links@[k] is Multi,
    {
        let ghost s0 = statements@;
        let ghost e0 = old(events)@.len();
        let ghost ev0 = events_view(old(events)@);
        let ghost mut hs: Seq<(Seq<char>, JExpr)> = Seq::empty();
        let mut i: usize = 0;
        assert(links@.subrange(0, 0) =~= Seq::<Link>::empty());
        while i < links.len()
            invariant
                i <= links@.len(),
                ev0 == events_view(old(events)@),
                events_view(events@) == group(ev0, hs),
                links_handlers_ok(links@.subrange(0, i as int), hs),
                events@.len() >= e0,
                e0 == old(events)@.len(),
                (exists|k: int| 0 <= k < i && binds_link(#[trigger] links@[k])) ==> events@.len() > 0,
                event_names_of(events@) == add_names(event_names_of(old(events)@), link_event_names(links@.subrange(0, i as int))),
                statements@.len() >= s0.len(),
                statements@.subrange(0, s0.len() as int) == s0,
                statements@.len() > s0.len() <==> exists|k: int| 0 <= k < i && #[trigger] links@[k] is Multi,
            decreases links.len() - i,
        {
            let ghost before = statements@;
            let ghost names_i = event_names_of(events@);
            let ghost li = links@.subrange(0, i as int);
            let ghost hs_i = hs;
            assert(links@.subrange(0, i + 1).drop_last() == li);
            assert(links@.subrange(0, i + 1).last() == links@[i as int]);
            match &links[i] {
                Link::One(ev, filt, dest) => {
                    let h = match dest {
                        LinkDest::Stream(x) => {
                            let jx = self.compile_expr(x);
                            let ghost gj = jx;
                            let h = self.compile_link(jx, filt, None);
                            assert(expr_lowered(*x, gj) && link_lowered(gj, *filt, None, h));
                            h
                        },
                        LinkDest::Mapping(val, dst) => {
                            let jx = self.compile_expr(dst);
                            let ghost gj = jx;
                            let h = self.compile_link(jx, filt, Some(val));
                            assert(expr_lowered(*dst, gj) && link_lowered(gj, *filt, Some(val), h));
                            h
                        },
                    };
                    let ghost gh = h;
                    assert(one_handler(*filt, *dest, gh));
                    add_event(events, ev.clone(), h);
                    proof {
                        let seg = seq![(ev@, gh)];
                        hs = hs_i + seg;
                        assert(hs.drop_last() =~= hs_i);
                        assert(hs.subrange(0, hs_i.len() as int) =~= hs_i);
                        assert(hs.subrange(hs_i.len() as int, hs.len() as int) =~= seg);
                        assert(link_handlers_ok(links@[i as int], seg));
                    }
                    proof {
                        assert(add_names(names_i, seq![ev@]) == add_name(names_i, ev@)) by {
                            assert(seq![ev@].drop_last() =~= Seq::<Seq<char>>::empty());
                            assert(add_names(names_i, seq![ev@].drop_last()) == names_i);
                            assert(seq![ev@].last() == ev@);
                        }
                        lemma_add_names_concat(event_names_of(old(events)@), link_event_names(li), seq![ev@]);
                    }
                },
                Link::Multi(names, dest) => {
                    let mut v = to_owned_string("_stream_");
                    let d = decimal_string(statements.len());
                    v.append(d.as_str());
                    let (target, val) = match dest {
                        LinkDest::Stream(x) => (x, None),
                        LinkDest::Mapping(val, dst) => (dst, Some(val)),
                    };
                    statements.push(JStmt::Var(v.clone(), self.compile_expr(target)));
                    let mut j: usize = 0;
                    let ghost e1 = events@.len();
                    let ghost mut seg: Seq<(Seq<char>, JExpr)> = Seq::empty();
                    let ghost vname = v@;
                    while j < names.len()
                        invariant
                            j <= names@.len(),
                            vname == v@,
                            v@.len() > 0,
                            val matches Some(m) ==> map_of(*dest) == Some(*m),
                            val is None ==> map_of(*dest) is None,
                            events_view(events@) == group(ev0, hs_i + seg),
                            seg.len() == j,
                            forall|jj: int| 0 <= jj < j ==> (#[trigger] seg[jj]).0 == multi_event_name(names@[jj])
                                && multi_handler(vname, names@[jj], *dest, seg[jj].1),
                            events@.len() >= e1,
                            j > 0 ==> events@.len() > 0,
                            event_names_of(events@) == add_names(names_i, names@.subrange(0, j as int).map_values(
                                |t: (String, Option<HExpr>, Option<String>)| multi_event_name(t),
                            )),
                        decreases names.len() - j,
                    {
                        let ename = match &names[j].2 {
                            Some(alias) => alias.clone(),
                            None => names[j].0.clone(),
                        };
                        let source = JExpr::Attr(Box::new(JExpr::Name(v.clone())), names[j].0.clone());
                        let ghost gs = source;
                        let h = self.compile_link(source, &names[j].1, val);
                        let ghost en = ename@;
                        assert(en == multi_event_name(names@[j as int]));
                        proof {
                            match map_of(*dest) {
                                Some(m) => {
                                    assert(link_lowered(gs, names@[j as int].1, Some(&m), h));
                                },
                                None => {
                                    assert(link_lowered(gs, names@[j as int].1, None, h));
                                },
                            }
                            assert(multi_handler(vname, names@[j as int], *dest, h));
                        }
                        let ghost gh = h;
                        add_event(events, ename, h);
                        proof {
                            let old_seg = seg;
                            seg = seg.push((en, gh));
                            assert((hs_i + seg).drop_last() =~= hs_i + old_seg);
                        }
                        assert(names@.subrange(0, j + 1).map_values(|t: (String, Option<HExpr>, Option<String>)| multi_event_name(t)).drop_last()
                            =~= names@.subrange(0, j as int).map_values(|t: (String, Option<HExpr>, Option<String>)| multi_event_name(t)));
                        j += 1;
                    }
                    proof {
                        assert(names@.subrange(0, names@.len() as int) == names@);
                        lemma_add_names_concat(event_names_of(old(events)@), link_event_names(li), one_link_names(links@[i as int]));
                        hs = hs_i + seg;
                        assert(hs.subrange(0, hs_i.len() as int) =~= hs_i);
                        assert(hs.subrange(hs_i.len() as int, hs.len() as int) =~= seg);
                        assert(multi_var(vname, *dest));
                        assert(link_handlers_ok(links@[i as int], seg));
                    }
                },
            }
            proof {
                let k = hs_i.len() as int;
                assert(hs.subrange(0, k) =~= hs_i);
                assert(links@.subrange(0, i + 1).drop_last() == li);
                assert(links_handlers_ok(li, hs.subrange(0, k)) && link_handlers_ok(links@[i as int], hs.subrange(k, hs.len() as int)));
                assert(links_handlers_ok(links@.subrange(0, i + 1), hs));
                assert(statements@.subrange(0, s0.len() as int) =~= s0);
                if links@[i as int] is Multi {
                    assert(statements@.len() > s0.len());
                }
                if binds_link(links@[i as int]) {
                    assert(events@.len() > 0);
                }
            }
            i += 1;
        }
        assert(links@.subrange(0, links@.len() as int) == links@);
        Ghost(hs)
    }

    fn renderable_count(&self, statements: &Vec<HStmt>) -> (r: usize)
        ensures
            r == count_renderable(statements@),
    {
        let ghost s = statements@;
        let mut count: usize = 0;
        let mut i: usize = 0;
        while i < statements.len()
            invariant
                i <= s.len(),
                s == statements@,
                count == count_renderable(s.subrange(0, i as int)),
                count <= i,
            decreases statements.len() - i,
        {
            assert(s.subrange(0, i + 1).drop_last() == s.subrange(0, i as int));
            if !is_control_exec(&statements[i]) {
                count = count + 1;
            }
            i += 1;
        }
        assert(s.subrange(0, s.len() as int) == s);
        count
    }

    /// Lowers an element: its tag, key, attributes, children, events and
    /// stored values; wrapped in a function of the previous node when the
    /// body binds local names.
    pub fn element(
        &self,
        name: &String,
        classes: &Vec<(String, Option<HExpr>)>,
        attributes: &Vec<(String, HExpr)>,
        key: Option<Vec<KeyPart>>,
        body: &Vec<HStmt>,
    ) -> (r: JExpr)
        requires
            key_ok(key),
        ensures
            element_lowered(self.scope(), name@, classes@, attributes@, opt_key(key), body@, r),
        decreases body, 4nat,
    {
        let ghost kv = opt_key(key);
        let ghost b = body@;
        let mut properties: Vec<(String, JExpr)> = Vec::new();
        properties.push((to_owned_string("tag"), JExpr::Str(name.clone())));
        match &key {
            Some(k) => {
                properties.push((to_owned_string("key"), key_expr(k)));
            },
            None => {},
        }
        let mut statements: Vec<JStmt> = Vec::new();
        let mut events: Vec<(String, Vec<JExpr>)> = Vec::new();
        let mut i: usize = 0;
        let ghost mut hs: Seq<(Seq<char>, JExpr)> = Seq::empty();
        proof {
            lemma_literals_differ();
        }
        assert(event_names_of(events@) =~= Seq::<Seq<char>>::empty());
        assert(events_view(events@) =~= Seq::<(Seq<char>, Seq<JExpr>)>::empty());
        assert(b.subrange(0, 0) =~= Seq::<HStmt>::empty());
        while i < body.len()
            invariant
                events_view(events@) == group(Seq::empty(), hs),
                body_handlers_ok(b.subrange(0, i as int), hs),
                event_names_of(events@) == add_names(Seq::empty(), body_event_names(b.subrange(0, i as int))),
                i <= b.len(),
                b == body@,
                head_props(name@, kv, properties@),
                store_props(b, properties@, i as int),
                store_bindings(b, statements@, i as int),
                let_bindings(b, statements@, i as int),
                props_allowed(properties@),
                forall|p: int| 0 <= p < properties@.len() ==> (#[trigger] properties@[p]).0@ != "events"@,
                absent(properties@, "attrs"@),
                absent(properties@, "children"@),
                statements@.len() > 0 <==> exists|k: int| 0 <= k < i && prelude_item(#[trigger] b[k]),
                (exists|k: int| 0 <= k < i && binds_events(#[trigger] b[k])) ==> events@.len() > 0,
            decreases body.len() - i,
        {
            let ghost p0 = properties@;
            let ghost s0 = statements@;
            let ghost names_i = event_names_of(events@);
            let ghost bi = b.subrange(0, i as int);
            let ghost hs_i = hs;
            assert(b.subrange(0, i + 1).drop_last() == bi);
            assert(b.subrange(0, i + 1).last() == b[i as int]);
            match &body[i] {
                HStmt::Let(n, v) => {
                    statements.push(JStmt::Var(n.clone(), self.compile_expr(v)));
                    assert(let_binding(b[i as int]->Let_0@, b[i as int]->Let_1, statements@[statements@.len() - 1]));
                },
                HStmt::Store(n, v) => {
                    let mut prop = to_owned_string("store_");
                    prop.append(n.as_str());
                    let old_attr = JExpr::Attr(Box::new(name_expr("old_node")), prop.clone());
                    let prev = JExpr::And(Box::new(name_expr("old_node")), Box::new(old_attr));
                    let value = JExpr::Or(Box::new(prev), Box::new(self.compile_expr(v)));
                    statements.push(JStmt::Var(n.clone(), value));
                    properties.push((prop, JExpr::Name(n.clone())));
                    let destroyed = JExpr::Attr(Box::new(JExpr::Name(n.clone())), to_owned_string("owner_destroyed"));
                    let handler = JExpr::Attr(
                        Box::new(JExpr::Attr(Box::new(JExpr::Name(n.clone())), to_owned_string("owner_destroyed"))),
                        to_owned_string("handle_event"),
                    );
                    let noop = JExpr::Function(None, Vec::new(), Vec::new());
                    let dh = JExpr::Ternary(Box::new(destroyed), Box::new(handler), Box::new(noop));
                    let ghost gdh = dh;
                    assert(destroy_handler(n@, gdh));
                    let dn = to_owned_string("$destroyed");
                    let ghost gdn = dn@;
                    add_event(&mut events, dn, dh);
                    proof {
                        let seg = seq![(gdn, gdh)];
                        hs = hs_i + seg;
                        assert(hs.drop_last() =~= hs_i);
                        assert(hs.subrange(0, hs_i.len() as int) =~= hs_i);
                        assert(hs.subrange(hs_i.len() as int, hs.len() as int) =~= seg);
                        assert(stmt_handlers_ok(b[i as int], seg));
                    }
                    proof {
                        assert(add_names(names_i, seq!["$destroyed"@]) == add_name(names_i, "$destroyed"@)) by {
                            assert(seq!["$destroyed"@].drop_last() =~= Seq::<Seq<char>>::empty());
                            assert(add_names(names_i, seq!["$destroyed"@].drop_last()) == names_i);
                            assert(seq!["$destroyed"@].last() == "$destroyed"@);
                        }
                        lemma_add_names_concat(Seq::empty(), body_event_names(bi), seq!["$destroyed"@]);
                    }
                    proof {
                        let last = statements@.len() - 1;
                        assert(store_binding(b[i as int]->Store_0@, b[i as int]->Store_1, statements@[last]));
                        assert(properties@[properties@.len() - 1].0@ == "store_"@ + b[i as int]->Store_0@);
                    }
                },
                HStmt::Link(links) => {
                    let hl = self.compile_links(links, &mut statements, &mut events);
                    proof {
                        lemma_group_concat(Seq::empty(), hs_i, hl@);
                        hs = hs_i + hl@;
                        assert(hs.subrange(0, hs_i.len() as int) =~= hs_i);
                        assert(hs.subrange(hs_i.len() as int, hs.len() as int) =~= hl@);
                        lemma_add_names_concat(Seq::empty(), body_event_names(bi), link_event_names(links@));
                    }
                },
                _ => {
                    assert(body_event_names(b.subrange(0, i + 1)) =~= body_event_names(bi));
                },
            }
            proof {
                lemma_literals_differ();
                assert forall|p: int| 0 <= p < properties@.len() implies (#[trigger] properties@[p]).0@ != "events"@ by {
                    if p < p0.len() {
                        assert(properties@[p] == p0[p]);
                    }
                }
                lemma_literals_differ();
                assert forall|p: int| 0 <= p < properties@.len() implies (#[trigger] properties@[p]).0@ != "events"@
                    && properties@[p].0@ != "attrs"@ && properties@[p].0@ != "children"@ by {
                    if p < p0.len() {
                        assert(properties@[p] == p0[p]);
                    }
                }
                let k = hs_i.len() as int;
                assert(hs.subrange(0, k) =~= hs_i);
                assert(stmt_handlers_ok(b[i as int], hs.subrange(k, hs.len() as int)));
                assert(body_handlers_ok(bi, hs.subrange(0, k)));
                assert(body_handlers_ok(b.subrange(0, i + 1), hs));
                assert(properties@.subrange(0, p0.len() as int) =~= p0);
                assert(statements@.subrange(0, s0.len() as int) =~= s0);
                lemma_props_grow(b, p0, properties@, i as int);
                lemma_bindings_grow(b, s0, statements@, i as int);
                lemma_lets_grow(b, s0, statements@, i as int);
                if prelude_item(b[i as int]) {
                    assert(statements@.len() > 0);
                }
                if statements@.len() > 0 && s0.len() == 0 {
                    assert(prelude_item(b[i as int]));
                }
                if binds_events(b[i as int]) {
                    assert(events@.len() > 0);
                }
            }
            i += 1;
        }
        let ghost p1 = properties@;
        proof {
            lemma_literals_differ();
        }
        let ghost mut aidx: int = 0;
        if classes.len() > 0 || attributes.len() > 0 || self.is_bare(name) {
            properties.push((to_owned_string("attrs"), self.attrs(name, classes, attributes)));
            proof {
                aidx = properties@.len() - 1;
            }
        }
        let ghost pa = properties@;
        let ghost mut cidx: int = 0;
        if self.renderable_count(body) > 0 {
            let c = self.fragment(body, None);
            properties.push((to_owned_string("children"), c));
            proof {
                cidx = properties@.len() - 1;
            }
        }
        let ghost p2 = properties@;
        let ghost mut eidx: int = 0;
        let ghost has_events = events@.len() > 0;
        assert(b.subrange(0, b.len() as int) == b);
        let ghost all_names = event_names_of(events@);
        assert(all_names.len() == events@.len());
        proof {
            lemma_literals_differ();
            assert forall|p: int| 0 <= p < properties@.len() implies (#[trigger] properties@[p]).0@ != "events"@ by {
                if p < p1.len() {
                    assert(properties@[p] == p1[p]);
                }
            }
        }
        let ghost g = events_view(events@);
        let ghost pe = properties@;
        if events.len() > 0 {
            let ghost ev0 = events@;
            let entries = finish_events(events);
            assert(entry_names(entries@) =~= event_names_of(ev0));
            assert(events_object(g, entries@));
            properties.push((to_owned_string("events"), JExpr::Object(entries)));
            proof {
                eidx = properties@.len() - 1;
            }
        }
        proof {
            assert(properties@.subrange(0, p1.len() as int) =~= p1);
            lemma_props_grow(b, p1, properties@, b.len() as int);
            if classes@.len() > 0 || attributes@.len() > 0 || self.scope().bare.contains(name@) {
                assert(properties@[aidx] == pa[aidx]);
                assert(properties@[aidx].0@ == "attrs"@);
            }
            if has_events {
                assert(properties@[eidx].0@ == "events"@);
            } else {
                assert(properties@ == pe);
            }
            assert(b.subrange(0, b.len() as int) == b);
            assert(g == group(Seq::empty(), hs));
            assert(events_prop(group(Seq::empty(), hs), properties@));
            assert forall|q: int| p1.len() <= q < properties@.len() implies (#[trigger] properties@[q]).0@ == "attrs"@
                || properties@[q].0@ == "children"@ || properties@[q].0@ == "events"@ by {
            }
            assert(at_most_once(properties@, "attrs"@));
            assert(at_most_once(properties@, "children"@));
            assert(at_most_once(properties@, "events"@));
            assert(body_handlers_ok(b, hs));
            if all_names.len() > 0 {
                assert(properties@[eidx].0@ == "events"@ && (properties@[eidx].1 matches JExpr::Object(entries)
                    && entry_names(entries@) == add_names(Seq::empty(), body_event_names(b))));
            }
            if count_renderable(b) > 0 {
                assert(properties@[cidx] == p2[cidx]);
                assert(properties@[cidx].0@ == "children"@ && fragment_lowered(self.scope(), b, None, properties@[cidx].1));
            }
        }
        if statements.len() > 0 {
            let ghost s1 = statements@;
            statements.push(JStmt::Return(JExpr::Object(properties)));
            proof {
                assert(statements@.subrange(0, s1.len() as int) =~= s1);
                lemma_bindings_grow(b, s1, statements@, b.len() as int);
                lemma_lets_grow(b, s1, statements@, b.len() as int);
            }
            assert(needs_prelude(b));
            let mut params: Vec<JParam> = Vec::new();
            params.push(JParam { name: to_owned_string("old_node"), default_value: None });
            JExpr::Function(None, params, statements)
        } else {
            assert(!needs_prelude(b));
            assert(element_props(self.scope(), name@, classes@, attributes@, kv, b, properties@));
            JExpr::Object(properties)
        }
    }

    /// Lowers every markup block of a file to a named function.
    pub fn code(&self, ast: &Ast) -> (r: Code)
        ensures
            code_lowered(self.scope(), ast.blocks@, r.statements@),
    {
        let mut stmt: Vec<JStmt> = Vec::new();
        let mut i: usize = 0;
        while i < ast.blocks.len()
            invariant
                i <= ast.blocks@.len(),
                code_lowered(self.scope(), ast.blocks@.subrange(0, i as int), stmt@),
            decreases ast.blocks.len() - i,
        {
            assert(ast.blocks@.subrange(0, i + 1).drop_last() == ast.blocks@.subrange(0, i as int));
            match &ast.blocks[i] {
                Block::Html { name, params, statements, .. } => {
                    let mut fparams: Vec<JParam> = Vec::new();
                    let mut k: usize = 0;
                    while k < params.len()
                        invariant
                            k <= params@.len(),
                            fparams@.len() == k,
                            forall|j: int| 0 <= j < k ==> (#[trigger] fparams@[j]).name@ == params@[j].name@
                                && default_kept(params@[j].default_value, fparams@[j].default_value),
                        decreases params.len() - k,
                    {
                        let dv = match &params[k].default_value {
                            Some(v) => Some(JExpr::Str(v.clone())),
                            None => None,
                        };
                        fparams.push(JParam { name: params[k].name.clone(), default_value: dv });
                        k += 1;
                    }
                    let mut key_text = self.block_name.clone();
                    push_char(&mut key_text, ':');
                    key_text.append(name.as_str());
                    assert(key_text@ =~= self.block_name@ + seq![':'] + name@);
                    let mut key: Vec<KeyPart> = Vec::new();
                    key.push(KeyPart::Lit(key_text));
                    assert(key_view(key@) =~= root_key(self.block_name@, name@));
                    let r = self.fragment(statements, Some(key));
                    let mut body: Vec<JStmt> = Vec::new();
                    body.push(JStmt::Return(r));
                    let ghost before = stmt@;
                    stmt.push(JStmt::Function(name.clone(), fparams, body));
                    assert(stmt@.drop_last() == before);
                },
                _ => {},
            }
            i += 1;
        }
        assert(ast.blocks@.subrange(0, ast.blocks@.len() as int) == ast.blocks@);
        Code { statements: stmt }
    }
}


/// The lowering of the renderable statements lists one item per
/// renderable statement.
pub proof fn lemma_children_count(sc: Scope, s: Seq<HStmt>, items: Seq<JExpr>)
    requires
        children_lowered(sc, s, items),
    ensures
        items.len() == count_renderable(s),
    decreases s.len(),
{
    if s.len() > 0 {
        if is_control(s.last()) {
            lemma_children_count(sc, s.drop_last(), items);
        } else {
            lemma_children_count(sc, s.drop_last(), items.drop_last());
        }
    }
}

/// A statement list with exactly one renderable statement lowers to that
/// statement's own lowering, with no `children` wrapper; any other list
/// lowers to an object whose last property is a `children` list with one
/// item per renderable statement (the key, if any, comes first).
pub proof fn lemma_fragment_collapsing(sc: Scope, s: Seq<HStmt>, key: Option<Seq<KeyPiece>>, j: JExpr)
    requires
        fragment_lowered(sc, s, key, j),
    ensures
        count_renderable(s) == 1 ==> single_lowered(sc, s, key, j),
        count_renderable(s) != 1 ==> (j matches JExpr::Object(props) && props@.len() >= 1
            && props@.last().0@ == "children"@ && (props@.last().1 matches JExpr::List(items)
            && items@.len() == count_renderable(s))),
{
    if count_renderable(s) != 1 {
        if let JExpr::Object(props) = j {
            if let JExpr::List(items) = props@.last().1 {
                lemma_children_count(sc, s, items@);
            }
        }
    }
}

} // verus!
