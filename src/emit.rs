use vstd::prelude::*;
use crate::js_ast::{Code, Comparator, Expression, Param, Statement};
use crate::util::{join, join_spec, push_char, views};

verus! {

/// `n` spaces.
pub open spec fn spaces(n: usize) -> Seq<char> {
    Seq::new(n as nat, |i: int| ' ')
}

/// The indentation one level deeper than `indent`.
pub open spec fn deeper(indent: usize, step: usize) -> usize {
    if indent + step <= usize::MAX {
        (indent + step) as usize
    } else {
        usize::MAX
    }
}

/// The lowercase hexadecimal digit for `d`, which is below sixteen.
pub open spec fn hex_digit(d: u32) -> char {
    seq!['0', '1', '2', '3', '4', '5', '6', '7', '8', '9', 'a', 'b', 'c', 'd', 'e', 'f'][d as int]
}

/// How one character is written inside a double-quoted string literal.
pub open spec fn escape_char(c: char) -> Seq<char> {
    if c == '\r' {
        seq!['\\', 'r']
    } else if c == '\n' {
        seq!['\\', 'n']
    } else if c == '\t' {
        seq!['\\', 't']
    } else if c == '"' {
        seq!['\\', '"']
    } else if c == '\'' {
        seq!['\\', '\'']
    } else if (c as u32) < 0x20 {
        seq!['\\', 'x', hex_digit((c as u32) / 16), hex_digit((c as u32) % 16)]
    } else {
        seq![c]
    }
}

/// The escaped characters of `s`, one after another.
pub open spec fn escape_all(s: Seq<char>) -> Seq<char>
    decreases s.len(),
{
    if s.len() == 0 {
        Seq::empty()
    } else {
        escape_all(s.drop_last()) + escape_char(s.last())
    }
}

/// `s` as a double-quoted string literal.
pub open spec fn quoted(s: Seq<char>) -> Seq<char> {
    seq!['"'] + escape_all(s) + seq!['"']
}

/// Whether `s` can stand unquoted as a property name.
pub open spec fn is_ident_spec(s: Seq<char>) -> bool {
    &&& s.len() > 0
    &&& (crate::tokenizer::is_letter(s[0]) || s[0] == '_')
    &&& forall|i: int| 1 <= i < s.len() ==> crate::tokenizer::is_ident_char(#[trigger] s[i])
}

/// A property name as written in an object literal.
pub open spec fn key_text(k: Seq<char>) -> Seq<char> {
    if is_ident_spec(k) {
        k
    } else {
        quoted(k)
    }
}

/// The operator text of a comparison.
pub open spec fn comparator_text(c: Comparator) -> Seq<char> {
    match c {
        Comparator::Eq => "==="@,
        Comparator::NotEq => "!=="@,
        Comparator::Less => "<"@,
        Comparator::LessEq => "<="@,
        Comparator::Greater => ">"@,
        Comparator::GreaterEq => ">="@,
    }
}

/// The parameter names of a function, separated by commas.
pub open spec fn params_text(ps: Seq<Param>) -> Seq<char> {
    join_spec(ps.map_values(|p: Param| p.name@), ", "@)
}

/// The text of an expression, whose continuation lines are indented by
/// `indent` and whose nested levels are `step` columns deeper.
pub open spec fn emit_expr(e: Expression, indent: usize, step: usize) -> Seq<char>
    decreases e, 0nat,
{
    let n = deeper(indent, step);
    match e {
        Expression::Str(s) => quoted(s@),
        Expression::Num(s) => s@,
        Expression::Object(pairs) => object_text(pairs@, indent, step),
        Expression::List(items) => list_text(items@, indent, step),
        Expression::Name(s) => s@,
        Expression::Attr(p, a) => emit_expr(*p, indent, step) + "."@ + a@,
        Expression::Item(p, i) => emit_expr(*p, indent, step) + "["@ + emit_expr(*i, indent, step)
            + "]"@,
        Expression::Call(p, args) => emit_expr(*p, indent, step) + "("@ + emit_args(
            args@,
            indent,
            step,
        ) + ")"@,
        Expression::New(v) => "new "@ + emit_expr(*v, indent, step),
        Expression::Not(v) => "!"@ + emit_expr(*v, indent, step),
        Expression::Or(l, r) => emit_expr(*l, indent, step) + " || "@ + emit_expr(*r, indent, step),
        Expression::And(l, r) => emit_expr(*l, indent, step) + " && "@ + emit_expr(*r, indent, step),
        Expression::Add(l, r) => emit_expr(*l, indent, step) + " + "@ + emit_expr(*r, indent, step),
        Expression::Sub(l, r) => emit_expr(*l, indent, step) + " - "@ + emit_expr(*r, indent, step),
        Expression::Mul(l, r) => emit_expr(*l, indent, step) + " * "@ + emit_expr(*r, indent, step),
        Expression::Div(l, r) => emit_expr(*l, indent, step) + " / "@ + emit_expr(*r, indent, step),
        Expression::Comparison(op, l, r) => emit_expr(*l, indent, step) + " "@ + comparator_text(op)
            + " "@ + emit_expr(*r, indent, step),
        Expression::Function(name, params, body) => "function "@ + match name {
            Some(s) => s@,
            None => Seq::empty(),
        } + "("@ + params_text(params@) + ") {\n"@ + emit_stmts(body@, n, step) + spaces(indent)
            + "}"@,
        Expression::AssignAttr(t, a, v) => emit_expr(*t, indent, step) + "."@ + a@ + " = "@
            + emit_expr(*v, indent, step),
        Expression::Ternary(c, l, r) => "(("@ + emit_expr(*c, indent, step) + ")?("@ + emit_expr(
            *l,
            indent,
            step,
        ) + "):("@ + emit_expr(*r, indent, step) + "))"@,
    }
}

/// An object literal: empty, on one line for one entry, else one entry per line.
pub open spec fn object_text(pairs: Seq<(String, Expression)>, indent: usize, step: usize) -> Seq<
    char,
>
    decreases pairs, 1nat,
{
    if pairs.len() == 0 {
        "{"@ + "}"@
    } else if pairs.len() == 1 {
        "{"@ + key_text(pairs[0].0@) + ": "@ + emit_expr(pairs[0].1, indent, step) + "}"@
    } else {
        "{"@ + "\n"@ + emit_entries(pairs, deeper(indent, step), step) + spaces(indent) + "}"@
    }
}

/// A list literal, laid out as an object literal is.
pub open spec fn list_text(items: Seq<Expression>, indent: usize, step: usize) -> Seq<char>
    decreases items, 1nat,
{
    if items.len() == 0 {
        "["@ + "]"@
    } else if items.len() == 1 {
        "["@ + emit_expr(items[0], indent, step) + "]"@
    } else {
        "["@ + "\n"@ + emit_items(items, deeper(indent, step), step) + spaces(indent) + "]"@
    }
}

/// The entries of a multi-line object literal, one per line at `indent`.
pub open spec fn emit_entries(s: Seq<(String, Expression)>, indent: usize, step: usize) -> Seq<
    char,
>
    decreases s, 0nat,
{
    if s.len() == 0 {
        Seq::empty()
    } else {
        emit_entries(s.drop_last(), indent, step) + spaces(indent) + key_text(s.last().0@) + ": "@
            + emit_expr(s.last().1, indent, step) + ",\n"@
    }
}

/// The items of a multi-line list literal, one per line at `indent`.
pub open spec fn emit_items(s: Seq<Expression>, indent: usize, step: usize) -> Seq<char>
    decreases s, 0nat,
{
    if s.len() == 0 {
        Seq::empty()
    } else {
        emit_items(s.drop_last(), indent, step) + spaces(indent) + emit_expr(s.last(), indent, step)
            + ",\n"@
    }
}

/// Call arguments separated by commas.
pub open spec fn emit_args(s: Seq<Expression>, indent: usize, step: usize) -> Seq<char>
    decreases s, 0nat,
{
    if s.len() == 0 {
        Seq::empty()
    } else if s.len() == 1 {
        emit_expr(s[0], indent, step)
    } else {
        emit_args(s.drop_last(), indent, step) + ", "@ + emit_expr(s.last(), indent, step)
    }
}

/// Statements, each on its own lines at `indent`.
pub open spec fn emit_stmts(s: Seq<Statement>, indent: usize, step: usize) -> Seq<char>
    decreases s, 0nat,
{
    if s.len() == 0 {
        Seq::empty()
    } else {
        emit_stmts(s.drop_last(), indent, step) + emit_stmt(s.last(), indent, step)
    }
}

/// One statement at `indent`.
pub open spec fn emit_stmt(st: Statement, indent: usize, step: usize) -> Seq<char>
    decreases st, 0nat,
{
    let n = deeper(indent, step);
    match st {
        Statement::Expr(e) => spaces(indent) + emit_expr(e, n, step) + "\n"@,
        Statement::Return(e) => spaces(indent) + "return "@ + emit_expr(e, n, step) + ";\n"@,
        Statement::Var(name, e) => spaces(indent) + "var "@ + name@ + " = "@ + emit_expr(e, n, step)
            + ";\n"@,
        Statement::Function(name, params, body) => spaces(indent) + "function "@ + name@ + "("@
            + params_text(params@) + ") {\n"@ + emit_stmts(body@, n, step) + spaces(indent)
            + "}\n"@,
    }
}


/// Writes `val` as a double-quoted string literal.
pub fn write_str(buf: &mut String, val: &str)
    ensures
        final(buf)@ == old(buf)@ + quoted(val@),
{
    let chars = crate::util::chars_of(val);
    let ghost b0 = buf@;
    push_char(buf, '"');
    let digits: [char; 16] = [
        '0', '1', '2', '3', '4', '5', '6', '7', '8', '9', 'a', 'b', 'c', 'd', 'e', 'f',
    ];
    assert(digits@ == seq!['0', '1', '2', '3', '4', '5', '6', '7', '8', '9', 'a', 'b', 'c', 'd', 'e', 'f']);
    let mut i: usize = 0;
    while i < chars.len()
        invariant
            i <= chars@.len(),
            chars@ == val@,
            digits@ == seq!['0', '1', '2', '3', '4', '5', '6', '7', '8', '9', 'a', 'b', 'c', 'd', 'e', 'f'],
            buf@ == b0 + seq!['"'] + escape_all(chars@.subrange(0, i as int)),
        decreases chars.len() - i,
    {
        let ch = chars[i];
        let ghost before = buf@;
        if ch == '\r' {
            push_char(buf, '\\');
            push_char(buf, 'r');
        } else if ch == '\n' {
            push_char(buf, '\\');
            push_char(buf, 'n');
        } else if ch == '\t' {
            push_char(buf, '\\');
            push_char(buf, 't');
        } else if ch == '"' {
            push_char(buf, '\\');
            push_char(buf, '"');
        } else if ch == '\'' {
            push_char(buf, '\\');
            push_char(buf, '\'');
        } else if (ch as u32) < 0x20 {
            let code = ch as u32;
            push_char(buf, '\\');
            push_char(buf, 'x');
            push_char(buf, digits[(code / 16) as usize]);
            push_char(buf, digits[(code % 16) as usize]);
        } else {
            push_char(buf, ch);
        }
        assert(buf@ =~= before + escape_char(ch));
        assert(chars@.subrange(0, i + 1).drop_last() == chars@.subrange(0, i as int));
        i += 1;
    }
    assert(chars@.subrange(0, chars@.len() as int) == chars@);
    push_char(buf, '"');
    assert(buf@ =~= b0 + quoted(val@));
}

/// Whether `s` can stand unquoted as a property name.
pub fn is_ident(s: &str) -> (r: bool)
    ensures
        r == is_ident_spec(s@),
{
    let chars = crate::util::chars_of(s);
    if chars.len() == 0 {
        return false;
    }
    let c = chars[0];
    if !(('a' <= c && c <= 'z') || ('A' <= c && c <= 'Z') || c == '_') {
        return false;
    }
    let mut i: usize = 1;
    while i < chars.len()
        invariant
            1 <= i <= chars@.len(),
            chars@ == s@,
            forall|k: int| 1 <= k < i ==> crate::tokenizer::is_ident_char(#[trigger] chars@[k]),
        decreases chars.len() - i,
    {
        let c = chars[i];
        if !(('a' <= c && c <= 'z') || ('A' <= c && c <= 'Z') || ('0' <= c && c <= '9') || c == '_') {
            assert(!crate::tokenizer::is_ident_char(s@[i as int]));
            return false;
        }
        i += 1;
    }
    true
}

/// Writes `indent` spaces.
pub fn write_indent(buf: &mut String, indent: usize)
    ensures
        final(buf)@ == old(buf)@ + spaces(indent),
{
    let ghost b0 = buf@;
    let mut i: usize = 0;
    while i < indent
        invariant
            i <= indent,
            buf@ == b0 + spaces(i),
        decreases indent - i,
    {
        push_char(buf, ' ');
        assert(spaces((i + 1) as usize) =~= spaces(i).push(' '));
        i += 1;
    }
}

fn next_indent(indent: usize, step: usize) -> (r: usize)
    ensures
        r == deeper(indent, step),
{
    if indent <= usize::MAX - step {
        indent + step
    } else {
        usize::MAX
    }
}

/// The operator text of a comparison.
pub fn comparator_symbol(c: Comparator) -> (r: &'static str)
    ensures
        r@ == comparator_text(c),
{
    match c {
        Comparator::Eq => "===",
        Comparator::NotEq => "!==",
        Comparator::Less => "<",
        Comparator::LessEq => "<=",
        Comparator::Greater => ">",
        Comparator::GreaterEq => ">=",
    }
}

fn write_key(buf: &mut String, k: &String)
    ensures
        final(buf)@ == old(buf)@ + key_text(k@),
{
    if is_ident(k.as_str()) {
        buf.append(k.as_str());
    } else {
        write_str(buf, k.as_str());
    }
}

fn write_params(buf: &mut String, params: &Vec<Param>)
    ensures
        final(buf)@ == old(buf)@ + params_text(params@),
{
    let mut names: Vec<String> = Vec::new();
    let mut i: usize = 0;
    while i < params.len()
        invariant
            i <= params@.len(),
            names@.len() == i,
            forall|k: int| 0 <= k < i ==> (#[trigger] names@[k])@ == params@[k].name@,
        decreases params.len() - i,
    {
        names.push(params[i].name.clone());
        i += 1;
    }
    let text = join(&names, ", ");
    assert(views(names@) =~= params@.map_values(|p: Param| p.name@));
    buf.append(text.as_str());
}

fn emit_object(buf: &mut String, pairs: &Vec<(String, Expression)>, indent: usize, step: usize)
    ensures
        final(buf)@ =~= old(buf)@ + object_text(pairs@, indent, step),
    decreases pairs,
{
    let nindent = next_indent(indent, step);
    buf.append("{");
    if pairs.len() == 0 {
    } else if pairs.len() == 1 {
        write_key(buf, &pairs[0].0);
        buf.append(": ");
        proof {
            assert(decreases_to!(pairs => pairs@[0]));
        }
        emit_expression(buf, &pairs[0].1, indent, step);
    } else {
        buf.append("\n");
        let ghost b1 = buf@;
        let mut i: usize = 0;
        while i < pairs.len()
            invariant
                i <= pairs@.len(),
                nindent == deeper(indent, step),
                buf@ =~= b1 + emit_entries(pairs@.subrange(0, i as int), nindent, step),
            decreases pairs.len() - i,
        {
            assert(pairs@.subrange(0, i + 1).drop_last() == pairs@.subrange(0, i as int));
            write_indent(buf, nindent);
            write_key(buf, &pairs[i].0);
            buf.append(": ");
            proof {
                assert(decreases_to!(pairs => pairs@[i as int]));
            }
            emit_expression(buf, &pairs[i].1, nindent, step);
            buf.append(",\n");
            i += 1;
        }
        assert(pairs@.subrange(0, pairs@.len() as int) == pairs@);
        write_indent(buf, indent);
    }
    buf.append("}");
}

fn emit_list(buf: &mut String, items: &Vec<Expression>, indent: usize, step: usize)
    ensures
        final(buf)@ =~= old(buf)@ + list_text(items@, indent, step),
    decreases items,
{
    let nindent = next_indent(indent, step);
    buf.append("[");
    if items.len() == 0 {
    } else if items.len() == 1 {
        proof {
            assert(decreases_to!(items => items@[0]));
        }
        emit_expression(buf, &items[0], indent, step);
    } else {
        buf.append("\n");
        let ghost b1 = buf@;
        let mut i: usize = 0;
        while i < items.len()
            invariant
                i <= items@.len(),
                nindent == deeper(indent, step),
                buf@ =~= b1 + emit_items(items@.subrange(0, i as int), nindent, step),
            decreases items.len() - i,
        {
            assert(items@.subrange(0, i + 1).drop_last() == items@.subrange(0, i as int));
            write_indent(buf, nindent);
            proof {
                assert(decreases_to!(items => items@[i as int]));
            }
            emit_expression(buf, &items[i], nindent, step);
            buf.append(",\n");
            i += 1;
        }
        assert(items@.subrange(0, items@.len() as int) == items@);
        write_indent(buf, indent);
    }
    buf.append("]");
}

fn emit_args_list(buf: &mut String, args: &Vec<Expression>, indent: usize, step: usize)
    ensures
        final(buf)@ =~= old(buf)@ + emit_args(args@, indent, step),
    decreases args,
{
    let ghost b1 = buf@;
    let mut i: usize = 0;
    while i < args.len()
        invariant
            i <= args@.len(),
            buf@ =~= b1 + emit_args(args@.subrange(0, i as int), indent, step),
        decreases args.len() - i,
    {
        assert(args@.subrange(0, i + 1).drop_last() == args@.subrange(0, i as int));
        if i > 0 {
            buf.append(", ");
        } else {
            assert(args@.subrange(0, 1)[0] == args@[0]);
        }
        proof {
            assert(decreases_to!(args => args@[i as int]));
        }
        emit_expression(buf, &args[i], indent, step);
        i += 1;
    }
    assert(args@.subrange(0, args@.len() as int) == args@);
}

/// Writes the text of an expression.
pub fn emit_expression(buf: &mut String, expr: &Expression, indent: usize, step: usize)
    ensures
        final(buf)@ =~= old(buf)@ + emit_expr(*expr, indent, step),
    decreases expr,
{
    let nindent = next_indent(indent, step);
    match expr {
        Expression::Str(s) => {
            write_str(buf, s.as_str());
        },
        Expression::Num(s) => {
            buf.append(s.as_str());
        },
        Expression::Name(s) => {
            buf.append(s.as_str());
        },
        Expression::Object(pairs) => {
            emit_object(buf, pairs, indent, step);
        },
        Expression::List(items) => {
            emit_list(buf, items, indent, step);
        },
        Expression::Attr(p, a) => {
            emit_expression(buf, p, indent, step);
            buf.append(".");
            buf.append(a.as_str());
        },
        Expression::Item(p, it) => {
            emit_expression(buf, p, indent, step);
            buf.append("[");
            emit_expression(buf, it, indent, step);
            buf.append("]");
        },
        Expression::Call(p, args) => {
            emit_expression(buf, p, indent, step);
            buf.append("(");
            emit_args_list(buf, args, indent, step);
            buf.append(")");
        },
        Expression::New(v) => {
            buf.append("new ");
            emit_expression(buf, v, indent, step);
        },
        Expression::Not(v) => {
            buf.append("!");
            emit_expression(buf, v, indent, step);
        },
        Expression::Or(l, r) => {
            emit_expression(buf, l, indent, step);
            buf.append(" || ");
            emit_expression(buf, r, indent, step);
        },
        Expression::And(l, r) => {
            emit_expression(buf, l, indent, step);
            buf.append(" && ");
            emit_expression(buf, r, indent, step);
        },
        Expression::Add(l, r) => {
            emit_expression(buf, l, indent, step);
            buf.append(" + ");
            emit_expression(buf, r, indent, step);
        },
        Expression::Sub(l, r) => {
            emit_expression(buf, l, indent, step);
            buf.append(" - ");
            emit_expression(buf, r, indent, step);
        },
        Expression::Mul(l, r) => {
            emit_expression(buf, l, indent, step);
            buf.append(" * ");
            emit_expression(buf, r, indent, step);
        },
        Expression::Div(l, r) => {
            emit_expression(buf, l, indent, step);
            buf.append(" / ");
            emit_expression(buf, r, indent, step);
        },
        Expression::Comparison(op, l, r) => {
            emit_expression(buf, l, indent, step);
            buf.append(" ");
            buf.append(comparator_symbol(*op));
            buf.append(" ");
            emit_expression(buf, r, indent, step);
        },
        Expression::Function(name, params, body) => {
            buf.append("function ");
            match name {
                Some(n) => {
                    buf.append(n.as_str());
                },
                None => {},
            }
            buf.append("(");
            write_params(buf, params);
            buf.append(") {\n");
            emit_statements(buf, body, nindent, step);
            write_indent(buf, indent);
            buf.append("}");
        },
        Expression::AssignAttr(t, a, v) => {
            emit_expression(buf, t, indent, step);
            buf.append(".");
            buf.append(a.as_str());
            buf.append(" = ");
            emit_expression(buf, v, indent, step);
        },
        Expression::Ternary(c, l, r) => {
            buf.append("((");
            emit_expression(buf, c, indent, step);
            buf.append(")?(");
            emit_expression(buf, l, indent, step);
            buf.append("):(");
            emit_expression(buf, r, indent, step);
            buf.append("))");
        },
    }
}

/// Writes statements, each on its own lines at `indent`.
pub fn emit_statements(buf: &mut String, stmts: &Vec<Statement>, indent: usize, step: usize)
    ensures
        final(buf)@ =~= old(buf)@ + emit_stmts(stmts@, indent, step),
    decreases stmts,
{
    let nindent = next_indent(indent, step);
    let ghost b0 = buf@;
    let mut i: usize = 0;
    while i < stmts.len()
        invariant
            i <= stmts@.len(),
            nindent == deeper(indent, step),
            buf@ =~= b0 + emit_stmts(stmts@.subrange(0, i as int), indent, step),
        decreases stmts.len() - i,
    {
        assert(stmts@.subrange(0, i + 1).drop_last() == stmts@.subrange(0, i as int));
        let ghost b1 = buf@;
        proof {
            assert(decreases_to!(stmts => stmts@[i as int]));
        }
        match &stmts[i] {
            Statement::Expr(e) => {
                write_indent(buf, indent);
                emit_expression(buf, e, nindent, step);
                buf.append("\n");
            },
            Statement::Return(e) => {
                write_indent(buf, indent);
                buf.append("return ");
                emit_expression(buf, e, nindent, step);
                buf.append(";\n");
            },
            Statement::Var(name, e) => {
                write_indent(buf, indent);
                buf.append("var ");
                buf.append(name.as_str());
                buf.append(" = ");
                emit_expression(buf, e, nindent, step);
                buf.append(";\n");
            },
            Statement::Function(name, params, body) => {
                write_indent(buf, indent);
                buf.append("function ");
                buf.append(name.as_str());
                buf.append("(");
                write_params(buf, params);
                buf.append(") {\n");
                emit_statements(buf, body, nindent, step);
                write_indent(buf, indent);
                buf.append("}\n");
            },
        }
        assert(buf@ =~= b1 + emit_stmt(stmts@[i as int], indent, step));
        i += 1;
    }
    assert(stmts@.subrange(0, stmts@.len() as int) == stmts@);
}

/// The text of a whole program, nested levels `step` columns deeper.
pub fn emit(code: &Code, step: usize) -> (r: String)
    ensures
        r@ == emit_stmts(code.statements@, 0, step),
{
    let mut buf = String::new();
    emit_statements(&mut buf, &code.statements, 0, step);
    buf
}

/// An equality test is written with the strict operator `===`, never with
/// the loose `==`.
pub proof fn lemma_equality_is_strict(l: Expression, r: Expression, indent: usize, step: usize)
    ensures
        emit_expr(Expression::Comparison(Comparator::Eq, Box::new(l), Box::new(r)), indent, step)
            == emit_expr(l, indent, step) + seq![' ', '=', '=', '=', ' '] + emit_expr(r, indent, step),
        comparator_text(Comparator::Eq) == seq!['=', '=', '='],
        comparator_text(Comparator::Eq) != seq!['=', '='],
{
    reveal_strlit("===");
    reveal_strlit(" ");
    assert(comparator_text(Comparator::Eq) =~= seq!['=', '=', '=']);
    assert(" "@ + comparator_text(Comparator::Eq) + " "@ =~= seq![' ', '=', '=', '=', ' ']);
    assert(emit_expr(Expression::Comparison(Comparator::Eq, Box::new(l), Box::new(r)), indent, step)
        =~= emit_expr(l, indent, step) + seq![' ', '=', '=', '=', ' '] + emit_expr(r, indent, step));
    assert(seq!['=', '=', '='].len() != seq!['=', '='].len());
}

} // verus!
