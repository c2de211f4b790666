use vstd::prelude::*;
use crate::ast::{Ast, Block};
use crate::js_ast::{Code, Expression as JExpr, Param, Statement as JStmt};
use crate::lower::Generator;
use crate::util::{push_char, to_owned_string};

verus! {

/// A character kept in a generated identifier, or `_` in its place.
pub open spec fn ident_char(c: char) -> char {
    if crate::tokenizer::is_ident_char(c) {
        c
    } else {
        '_'
    }
}

/// The parameter name for the module at `src`: `_mod_` followed by the
/// path with every character that cannot stand in an identifier replaced
/// by `_`.
pub open spec fn ident_of(src: Seq<char>) -> Seq<char> {
    "_mod_"@ + src.map_values(|c: char| ident_char(c))
}

/// The parameter name for the module at `src`.
pub fn string_to_ident(src: &str) -> (r: String)
    ensures
        r@ == ident_of(src@),
{
    let chars = crate::util::chars_of(src);
    let mut res = to_owned_string("_mod_");
    let ghost b0 = res@;
    let mut i: usize = 0;
    while i < chars.len()
        invariant
            i <= chars@.len(),
            chars@ == src@,
            res@ == b0 + chars@.subrange(0, i as int).map_values(|c: char| ident_char(c)),
        decreases chars.len() - i,
    {
        let c = chars[i];
        if ('a' <= c && c <= 'z') || ('A' <= c && c <= 'Z') || ('0' <= c && c <= '9') || c == '_' {
            push_char(&mut res, c);
        } else {
            push_char(&mut res, '_');
        }
        assert(chars@.subrange(0, i + 1).map_values(|c: char| ident_char(c)) =~= chars@.subrange(0, i as int).map_values(|c: char| ident_char(c)).push(ident_char(c)));
        i += 1;
    }
    assert(chars@.subrange(0, chars@.len() as int) == chars@);
    res
}

fn name_of(s: &str) -> (r: JExpr)
    ensures
        r matches JExpr::Name(n) && n@ == s@,
{
    JExpr::Name(to_owned_string(s))
}

fn plain_param(s: String) -> (r: Param)
    ensures
        r.name == s,
        r.default_value is None,
{
    Param { name: s, default_value: None }
}

/// The export assignments for the markup blocks among `blocks`, in order:
/// `exports.<name> = <name>`.
pub open spec fn exports_for(blocks: Seq<Block>, out: Seq<JStmt>) -> bool
    decreases blocks.len(),
{
    if blocks.len() == 0 {
        out.len() == 0
    } else if blocks.last() is Html {
        &&& out.len() > 0
        &&& exports_for(blocks.drop_last(), out.drop_last())
        &&& match out.last() {
            JStmt::Expr(JExpr::AssignAttr(t, a, v)) => {
                &&& (*t matches JExpr::Name(e) && e@ == "exports"@)
                &&& a@ == blocks.last()->Html_name@
                &&& (*v matches JExpr::Name(n) && n@ == blocks.last()->Html_name@)
            },
            _ => false,
        }
    } else {
        exports_for(blocks.drop_last(), out)
    }
}

/// What the imports among `blocks` contribute, in order: the dependency
/// paths, the argument names, and the paths of destructuring imports seen
/// so far. A path imported by name adds its name; a path destructured for
/// the first time adds one argument named after the path, and later
/// destructurings of the same path add nothing.
pub open spec fn imports_of(blocks: Seq<Block>) -> (Seq<Seq<char>>, Seq<Seq<char>>, Seq<Seq<char>>)
    decreases blocks.len(),
{
    if blocks.len() == 0 {
        (Seq::empty(), Seq::empty(), Seq::empty())
    } else {
        let st = imports_of(blocks.drop_last());
        match blocks.last() {
            Block::ImportModule(name, src) => (st.0.push(src@), st.1.push(name@), st.2),
            Block::ImportVars(_, src) => if st.2.contains(src@) {
                st
            } else {
                (st.0.push(src@), st.1.push(ident_of(src@)), st.2.push(src@))
            },
            _ => st,
        }
    }
}

/// `st` binds one destructured name: `var <alias or name> = <module>.<name>`.
pub open spec fn binding_of(item: (String, Option<String>), src: Seq<char>, st: JStmt) -> bool {
    match st {
        JStmt::Var(local, JExpr::Attr(m, a)) => {
            &&& local@ == match item.1 {
                Some(alias) => alias@,
                None => item.0@,
            }
            &&& (*m matches JExpr::Name(mv) && mv@ == ident_of(src))
            &&& a@ == item.0@
        },
        _ => false,
    }
}

/// The bindings of every destructured name among `blocks`, in order.
pub open spec fn bindings_ok(blocks: Seq<Block>, out: Seq<JStmt>) -> bool
    decreases blocks.len(),
{
    if blocks.len() == 0 {
        out.len() == 0
    } else {
        match blocks.last() {
            Block::ImportVars(items, src) => {
                let n = items@.len();
                &&& out.len() >= n
                &&& bindings_ok(blocks.drop_last(), out.subrange(0, out.len() - n))
                &&& forall|j: int| 0 <= j < n ==> binding_of(items@[j], src@, #[trigger] out[out.len() - n + j])
            },
            _ => bindings_ok(blocks.drop_last(), out),
        }
    }
}

/// `e` is the string literal `s`.
pub open spec fn str_is(e: JExpr, s: Seq<char>) -> bool {
    e matches JExpr::Str(t) && t@ == s
}

/// `deps` is `require`, `exports`, then the paths `srcs`.
pub open spec fn deps_listed(deps: Seq<JExpr>, srcs: Seq<Seq<char>>) -> bool {
    &&& deps.len() == 2 + srcs.len()
    &&& forall|j: int| 0 <= j < srcs.len() ==> str_is(deps[2 + j], #[trigger] srcs[j])
}

/// `params` is `require`, `exports`, then the names `names`.
pub open spec fn args_listed(params: Seq<Param>, names: Seq<Seq<char>>) -> bool {
    &&& params.len() == 2 + names.len()
    &&& forall|j: int| 0 <= j < names.len() ==> params[2 + j].name@ == #[trigger] names[j]
}

/// The function of a module definition and its dependency list.
pub open spec fn module_function(code: Seq<JStmt>, blocks: Seq<Block>, deps: Seq<JExpr>, fname: Option<String>, params: Seq<Param>, body: Seq<JStmt>) -> bool {
    &&& fname is None
    &&& deps.len() == params.len()
    &&& deps.len() >= 2
    &&& (deps[0] matches JExpr::Str(s) && s@ == "require"@)
    &&& (deps[1] matches JExpr::Str(s) && s@ == "exports"@)
    &&& params[0].name@ == "require"@
    &&& params[1].name@ == "exports"@
    &&& deps_listed(deps, imports_of(blocks).0)
    &&& args_listed(params, imports_of(blocks).1)
    &&& exists|k: int, m: int| #![trigger body.subrange(k, m)]
        0 <= k <= m <= body.len() && bindings_ok(blocks, body.subrange(0, k)) && body.subrange(k, m) == code && exports_for(blocks, body.subrange(m, body.len() as int))
}

/// `r` is the module definition `define(name, [deps], function(args) {
/// body })`, with `require` and `exports` first among the dependencies and
/// the arguments, one argument per dependency, and a body that runs the
/// import bindings, then `code`, then the exports of the markup blocks.
pub open spec fn amd_wrapped(code: Seq<JStmt>, blocks: Seq<Block>, amd_name: Seq<char>, r: Seq<JStmt>) -> bool {
    &&& r.len() == 1
    &&& match r[0] {
        JStmt::Expr(JExpr::Call(callee, args)) => {
            &&& (*callee matches JExpr::Name(d) && d@ == "define"@)
            &&& args@.len() == 3
            &&& (args@[0] matches JExpr::Str(n) && n@ == amd_name)
            &&& match args@[1] {
                JExpr::List(deps) => match args@[2] {
                    JExpr::Function(fname, params, body) => module_function(code, blocks, deps@, fname, params@, body@),
                    _ => false,
                },
                _ => false,
            }
        },
        _ => false,
    }
}

/// `r` is `code` after three statements that create a `<style>` element
/// holding `css` and append it to the document head.
pub open spec fn css_added(code: Seq<JStmt>, css: Seq<char>, r: Seq<JStmt>) -> bool {
    &&& r.len() == code.len() + 3
    &&& r.subrange(3, r.len() as int) == code
    &&& match r[0] {
        JStmt::Var(v, value) => v@ == "_style"@ && method_call(value, "createElement"@) && name_is(call_base(value), "document"@)
            && str_is(call_arg(value), "style"@),
        _ => false,
    }
    &&& match r[1] {
        JStmt::Expr(e) => method_call(e, "appendChild"@) && name_is(call_base(e), "_style"@) && method_call(
            call_arg(e),
            "createTextNode"@,
        ) && name_is(call_base(call_arg(e)), "document"@) && str_is(call_arg(call_arg(e)), css),
        _ => false,
    }
    &&& match r[2] {
        JStmt::Expr(e) => method_call(e, "appendChild"@) && head_is(call_base(e), "document"@) && name_is(
            call_arg(e),
            "_style"@,
        ),
        _ => false,
    }
}

/// `e` is the name `n`.
pub open spec fn name_is(e: JExpr, n: Seq<char>) -> bool {
    e matches JExpr::Name(x) && x@ == n
}

/// `e` is `<n>.head`.
pub open spec fn head_is(e: JExpr, n: Seq<char>) -> bool {
    match e {
        JExpr::Attr(b, a) => a@ == "head"@ && name_is(*b, n),
        _ => false,
    }
}

/// `e` is a call of the method `m` with one argument.
pub open spec fn method_call(e: JExpr, m: Seq<char>) -> bool {
    match e {
        JExpr::Call(f, args) => args@.len() == 1 && (*f matches JExpr::Attr(_, a) && a@ == m),
        _ => false,
    }
}

/// The object whose method `e` calls.
pub open spec fn call_base(e: JExpr) -> JExpr {
    match e {
        JExpr::Call(f, _) => match *f {
            JExpr::Attr(b, _) => *b,
            other => other,
        },
        other => other,
    }
}

/// The first argument of the call `e`.
pub open spec fn call_arg(e: JExpr) -> JExpr {
    match e {
        JExpr::Call(_, args) => args@[0],
        other => other,
    }
}

impl Generator {
    /// Wraps generated code in an AMD module definition named `amd_name`,
    /// with the file's imports as dependencies and its markup blocks as
    /// exports.
    pub fn wrap_amd(&self, code: Code, ast: &Ast, amd_name: &str) -> (r: Code)
        ensures
            amd_wrapped(code.statements@, ast.blocks@, amd_name@, r.statements@),
    {
        let mut code_prefix: Vec<JStmt> = Vec::new();
        let mut code_suffix: Vec<JStmt> = Vec::new();
        let mut dependencies: Vec<JExpr> = Vec::new();
        dependencies.push(JExpr::Str(to_owned_string("require")));
        dependencies.push(JExpr::Str(to_owned_string("exports")));
        let mut arguments: Vec<Param> = Vec::new();
        arguments.push(plain_param(to_owned_string("require")));
        arguments.push(plain_param(to_owned_string("exports")));
        let mut modules: Vec<(String, String)> = Vec::new();
        let mut i: usize = 0;
        while i < ast.blocks.len()
            invariant
                i <= ast.blocks@.len(),
                dependencies@.len() == arguments@.len(),
                dependencies@.len() >= 2,
                dependencies@[0] matches JExpr::Str(s) && s@ == "require"@,
                dependencies@[1] matches JExpr::Str(s) && s@ == "exports"@,
                arguments@[0].name@ == "require"@,
                arguments@[1].name@ == "exports"@,
                exports_for(ast.blocks@.subrange(0, i as int), code_suffix@),
                bindings_ok(ast.blocks@.subrange(0, i as int), code_prefix@),
                deps_listed(dependencies@, imports_of(ast.blocks@.subrange(0, i as int)).0),
                args_listed(arguments@, imports_of(ast.blocks@.subrange(0, i as int)).1),
                modules@.len() == imports_of(ast.blocks@.subrange(0, i as int)).2.len(),
                forall|j: int| 0 <= j < modules@.len() ==> (#[trigger] modules@[j]).0@ == imports_of(ast.blocks@.subrange(0, i as int)).2[j] && modules@[j].1@ == ident_of(modules@[j].0@),
            decreases ast.blocks.len() - i,
        {
            let ghost pre = ast.blocks@.subrange(0, i as int);
            let ghost post = ast.blocks@.subrange(0, i + 1);
            let ghost st = imports_of(pre);
            let ghost d0 = dependencies@;
            let ghost a0 = arguments@;
            let ghost p0 = code_prefix@;
            let ghost m0 = modules@;
            assert(post.drop_last() == pre);
            assert(post.last() == ast.blocks@[i as int]);
            assert(ast.blocks@.subrange(0, i + 1).drop_last() == ast.blocks@.subrange(0, i as int));
            match &ast.blocks[i] {
                Block::ImportModule(name, source) => {
                    dependencies.push(JExpr::Str(source.clone()));
                    arguments.push(plain_param(name.clone()));
                },
                Block::ImportVars(items, source) => {
                    let mut m: usize = 0;
                    let mut found = false;
                    while m < modules.len() && !found
                        invariant
                            m <= modules@.len(),
                            found ==> m < modules@.len() && modules@[m as int].0@ == source@,
                            forall|j: int| 0 <= j < m ==> (#[trigger] modules@[j]).0@ != source@,
                        decreases modules.len() - m + if found { 0int } else { 1int },
                    {
                        if modules[m].0 == *source {
                            found = true;
                        } else {
                            m += 1;
                        }
                    }
                    if found {
                        assert(st.2.contains(source@)) by {
                            assert(st.2[m as int] == source@);
                        }
                    } else {
                        assert(!st.2.contains(source@)) by {
                            if st.2.contains(source@) {
                                let j = choose|j: int| 0 <= j < st.2.len() && st.2[j] == source@;
                                assert(modules@[j].0@ == st.2[j]);
                            }
                        }
                        let varname = string_to_ident(source.as_str());
                        arguments.push(plain_param(varname.clone()));
                        dependencies.push(JExpr::Str(source.clone()));
                        modules.push((source.clone(), varname));
                        m = modules.len() - 1;
                    }
                    assert(modules@[m as int].1@ == ident_of(source@));
                    let base = code_prefix.len();
                    let mut k: usize = 0;
                    while k < items.len()
                        invariant
                            k <= items@.len(),
                            m < modules@.len(),
                            modules@[m as int].1@ == ident_of(source@),
                            base == p0.len(),
                            code_prefix@.len() == base + k,
                            code_prefix@.subrange(0, base as int) == p0,
                            forall|j: int| 0 <= j < k ==> binding_of(items@[j], source@, #[trigger] code_prefix@[base + j]),
                        decreases items.len() - k,
                    {
                        let local = match &items[k].1 {
                            Some(alias) => alias.clone(),
                            None => items[k].0.clone(),
                        };
                        code_prefix.push(JStmt::Var(local, JExpr::Attr(Box::new(JExpr::Name(modules[m].1.clone())), items[k].0.clone())));
                        assert(binding_of(items@[k as int], source@, code_prefix@[base + k]));
                        assert(code_prefix@.subrange(0, base as int) =~= p0);
                        k += 1;
                    }
                    assert(code_prefix@.subrange(0, code_prefix@.len() - items@.len()) == p0);
                },
                Block::Html { name, .. } => {
                    let ghost before = code_suffix@;
                    code_suffix.push(JStmt::Expr(JExpr::AssignAttr(Box::new(name_of("exports")), name.clone(), Box::new(JExpr::Name(name.clone())))));
                    assert(code_suffix@.drop_last() == before);
                },
                Block::Css(_, _) => {},
            }
            proof {
                let st2 = imports_of(post);
                assert forall|j: int| 0 <= j < st2.0.len() implies str_is(dependencies@[2 + j], #[trigger] st2.0[j]) by {
                    if j < st.0.len() {
                        assert(dependencies@[2 + j] == d0[2 + j]);
                        assert(st2.0[j] == st.0[j]);
                    }
                }
                assert forall|j: int| 0 <= j < st2.1.len() implies arguments@[2 + j].name@ == #[trigger] st2.1[j] by {
                    if j < st.1.len() {
                        assert(arguments@[2 + j] == a0[2 + j]);
                        assert(st2.1[j] == st.1[j]);
                    }
                }
                assert(deps_listed(dependencies@, st2.0));
                assert(args_listed(arguments@, st2.1));
            }
            i += 1;
        }
        assert(ast.blocks@.subrange(0, ast.blocks@.len() as int) == ast.blocks@);
        let ghost pre = code_prefix@;
        let ghost suf = code_suffix@;
        let Code { statements: mut stmts } = code;
        let ghost mid = stmts@;
        let mut body = code_prefix;
        body.append(&mut stmts);
        body.append(&mut code_suffix);
        proof {
            let k = pre.len() as int;
            let m = (pre.len() + mid.len()) as int;
            assert(body@ == pre + mid + suf);
            assert(body@.subrange(k, m) =~= mid);
            assert(body@.subrange(m, body@.len() as int) =~= suf);
            assert(mid == code.statements@);
        assert(body@.subrange(0, k) =~= pre);
        assert(bindings_ok(ast.blocks@, body@.subrange(0, k)));
            assert(exists|k: int, m: int| #![trigger body@.subrange(k, m)]
                0 <= k <= m <= body@.len() && body@.subrange(k, m) == code.statements@ && exports_for(ast.blocks@, body@.subrange(m, body@.len() as int)));
        }
        let ghost dv = dependencies@;
        let ghost av = arguments@;
        let ghost bv = body@;
        assert(module_function(code.statements@, ast.blocks@, dv, None, av, bv));
        let mut args: Vec<JExpr> = Vec::new();
        args.push(JExpr::Str(to_owned_string(amd_name)));
        args.push(JExpr::List(dependencies));
        args.push(JExpr::Function(None, arguments, body));
        let mut statements: Vec<JStmt> = Vec::new();
        statements.push(JStmt::Expr(JExpr::Call(Box::new(name_of("define")), args)));
        Code { statements }
    }

    /// Puts before `code` the statements that load `css` into the document:
    /// a `<style>` element with the text, appended to the head.
    pub fn add_css(&self, code: Code, css: &str) -> (r: Code)
        ensures
            css_added(code.statements@, css@, r.statements@),
    {
        let mut stmt: Vec<JStmt> = Vec::new();
        let mut create_args: Vec<JExpr> = Vec::new();
        create_args.push(JExpr::Str(to_owned_string("style")));
        stmt.push(JStmt::Var(
            to_owned_string("_style"),
            JExpr::Call(Box::new(JExpr::Attr(Box::new(name_of("document")), to_owned_string("createElement"))), create_args),
        ));
        let mut text_args: Vec<JExpr> = Vec::new();
        text_args.push(JExpr::Str(to_owned_string(css)));
        let mut append_args: Vec<JExpr> = Vec::new();
        append_args.push(JExpr::Call(Box::new(JExpr::Attr(Box::new(name_of("document")), to_owned_string("createTextNode"))), text_args));
        stmt.push(JStmt::Expr(JExpr::Call(Box::new(JExpr::Attr(Box::new(name_of("_style")), to_owned_string("appendChild"))), append_args)));
        let mut head_args: Vec<JExpr> = Vec::new();
        head_args.push(name_of("_style"));
        let head = JExpr::Attr(Box::new(name_of("document")), to_owned_string("head"));
        stmt.push(JStmt::Expr(JExpr::Call(Box::new(JExpr::Attr(Box::new(head), to_owned_string("appendChild"))), head_args)));
        let Code { statements: mut rest } = code;
        let ghost orig = rest@;
        stmt.append(&mut rest);
        assert(stmt@.subrange(3, stmt@.len() as int) == orig);
        Code { statements: stmt }
    }
}

} // verus!
