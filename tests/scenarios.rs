use marafet::ast::{Ast, Block};
use marafet::css;
use marafet::css_ast::{Rule, Selector};
use marafet::emit::{emit, emit_expression};
use marafet::html_ast::{Comparator, Expression as HExpr, Fmt, Statement as HStmt};
use marafet::js;
use marafet::js_ast::{Code, Expression as JExpr, Statement as JStmt};
use marafet::lower::{Generator, KeyPart};
use marafet::token::TokenType;
use marafet::tokenizer::{tokenize, LexErrorKind};
use marafet::visitors::{add_block_name, visitor};
use marafet::{parse_html_expr, parse_string, Error};

fn js_of(src: &str, block: &str) -> String {
    let ast = parse_string(src).expect("parses");
    js::generate(
        &ast,
        &js::Settings { block_name: block, use_amd: false, amd_name: "m", css_text: None },
    )
}

#[test]
fn css_block_is_scoped_by_block_name() {
    let ast = parse_string("css:\n  .foo:\n    color: red\n").expect("parses");
    let vars: Vec<(String, String)> = Vec::new();
    let out = css::generate(&ast, &css::Settings { block_name: "btn", vars: &vars });
    assert_eq!(out, ".btn.foo {\n    color: red;\n}\n\n");
}

#[test]
fn css_rule_with_several_selectors_and_values() {
    let ast = parse_string("css:\n  a, .x.y\n    margin: 1px 2px\n    font: bold, serif\n").expect("parses");
    let vars: Vec<(String, String)> = Vec::new();
    let out = css::generate(&ast, &css::Settings { block_name: "b", vars: &vars });
    assert_eq!(out, "a.b, .b.x.y {\n    margin: 1px 2px;\n    font: bold , serif;\n}\n\n");
}

#[test]
fn markup_block_renders_keyed_element() {
    let out = js_of("hello:\n  div\n    \"Hi\"\n", "blk");
    assert_eq!(
        out,
        "function hello() {\n    return {\n            tag: \"div\",\n            key: \"blk:hello\",\n            children: \"Hi\",\n        };\n}\n"
    );
}

#[test]
fn link_binds_event_to_stream() {
    let out = js_of("x:\n  div\n    link click = stream\n", "b");
    assert!(out.contains("events: {click: stream.handle_event}"), "{}", out);
}

#[test]
fn link_with_filter_and_mapping() {
    let out = js_of("x:\n  div\n    link click[ev.ok] = ev.value -> dest\n", "b");
    assert!(
        out.contains("dest.map(function (ev) {"),
        "{}",
        out
    );
    assert!(out.contains(".filter(function (ev) {"), "{}", out);
    assert!(out.contains("}).handle_event"), "{}", out);
}

#[test]
fn store_wraps_element_in_function_of_old_node() {
    let out = js_of("x:\n  div\n    store x = compute()\n", "b");
    assert!(out.contains("function (old_node) {"), "{}", out);
    assert!(out.contains("var x = old_node && old_node.store_x || compute();"), "{}", out);
    assert!(out.contains("store_x: x,"), "{}", out);
}

#[test]
fn unmatched_close_paren_fails_tokenizing() {
    match parse_string("x:\n  div\n    = f(a))\n") {
        Err(Error::Lex(e)) => assert_eq!(e.kind, LexErrorKind::UnmatchedBracket),
        other => panic!("unexpected {:?}", other.is_ok()),
    }
    assert!(tokenize(")").is_err());
    assert!(tokenize("(]").is_err());
}

#[test]
fn wrong_dedent_is_an_error() {
    match tokenize("a:\n    b\n  c\n") {
        Err(e) => assert_eq!(e.kind, LexErrorKind::WrongIndentation),
        Ok(_) => panic!("tokenized"),
    }
}

#[test]
fn unexpected_character_is_an_error() {
    match tokenize("a @\n") {
        Err(e) => assert_eq!(e.kind, LexErrorKind::UnexpectedCharacter('@')),
        Ok(_) => panic!("tokenized"),
    }
}

#[test]
fn missing_colon_is_a_syntax_error() {
    match parse_string("hello\n") {
        Err(Error::Syntax(e)) => {
            assert_eq!(e.found, TokenType::Newline);
            assert_eq!(e.expected, vec![TokenType::Colon]);
        }
        _ => panic!("expected a syntax error"),
    }
}

#[test]
fn indents_and_dedents_balance() {
    let toks = tokenize("a:\n  b\n    c\n  d\n\ne:\n  f\n").expect("tokenizes");
    let ind = toks.iter().filter(|t| t.kind == TokenType::Indent).count();
    let ded = toks.iter().filter(|t| t.kind == TokenType::Dedent).count();
    assert_eq!(ind, 3);
    assert_eq!(ind, ded);
    assert_eq!(toks.last().unwrap().kind, TokenType::Eof);
}

#[test]
fn token_texts_are_source_spans() {
    let src = "x(a=\"s\"):\n  div.cls[title=\"t\"]  # note\n    = a >= 10 -> b\n";
    let toks = tokenize(src).expect("tokenizes");
    let chars: Vec<char> = src.chars().collect();
    let mut rebuilt = String::new();
    for t in toks.iter() {
        if t.text.is_empty() || t.kind == TokenType::Newline {
            continue;
        }
        let span: String = chars[t.start..t.start + t.text.chars().count()].iter().collect();
        assert_eq!(span, t.text);
        rebuilt.push_str(&t.text);
    }
    let significant: String = "x(a=\"s\"):\n  div.cls[title=\"t\"]\n    = a >= 10 -> b\n"
        .chars()
        .filter(|c| !c.is_whitespace())
        .collect();
    assert_eq!(rebuilt, significant);
}

#[test]
fn columns_count_grapheme_clusters() {
    let toks = tokenize("\"e\u{301}\" x\n").expect("tokenizes");
    assert_eq!(toks[0].kind, TokenType::String);
    assert_eq!(toks[1].kind, TokenType::Ident);
    assert_eq!(toks[1].position.column, 5);
    assert_eq!(toks[1].start, 5);
}

#[test]
fn two_char_operators_are_greedy() {
    let toks = tokenize("a == b != c <= d >= e -> f\n").expect("tokenizes");
    let kinds: Vec<TokenType> = toks.iter().map(|t| t.kind).collect();
    assert_eq!(
        kinds,
        vec![
            TokenType::Ident, TokenType::Eq, TokenType::Ident, TokenType::NotEq, TokenType::Ident,
            TokenType::LessEq, TokenType::Ident, TokenType::GreaterEq, TokenType::Ident,
            TokenType::ArrowRight, TokenType::Ident, TokenType::Newline, TokenType::Eof
        ]
    );
}

#[test]
fn equality_emits_triple_equals() {
    let e = JExpr::Comparison(
        Comparator::Eq,
        Box::new(JExpr::Name("a".to_string())),
        Box::new(JExpr::Num("1".to_string())),
    );
    let mut buf = String::new();
    emit_expression(&mut buf, &e, 0, 4);
    assert_eq!(buf, "a === 1");
    let e = JExpr::Comparison(
        Comparator::NotEq,
        Box::new(JExpr::Name("a".to_string())),
        Box::new(JExpr::Name("b".to_string())),
    );
    let mut buf = String::new();
    emit_expression(&mut buf, &e, 0, 4);
    assert_eq!(buf, "a !== b");
}

#[test]
fn parsed_equality_emits_triple_equals() {
    let out = js_of("x:\n  = a == b\n", "b");
    assert!(out.contains("return a === b;"), "{}", out);
}

#[test]
fn strings_are_escaped() {
    let e = JExpr::Str("a\"b\n\t'\u{1}".to_string());
    let mut buf = String::new();
    emit_expression(&mut buf, &e, 0, 4);
    assert_eq!(buf, "\"a\\\"b\\n\\t\\'\\x01\"");
}

#[test]
fn ternary_is_fully_parenthesized() {
    let e = JExpr::Ternary(
        Box::new(JExpr::Name("c".to_string())),
        Box::new(JExpr::Num("1".to_string())),
        Box::new(JExpr::Num("2".to_string())),
    );
    let mut buf = String::new();
    emit_expression(&mut buf, &e, 0, 4);
    assert_eq!(buf, "((c)?(1):(2))");
}

#[test]
fn object_and_list_layout() {
    let empty = JExpr::Object(vec![]);
    let one = JExpr::Object(vec![("a-b".to_string(), JExpr::Num("1".to_string()))]);
    let two = JExpr::List(vec![JExpr::Num("1".to_string()), JExpr::Num("2".to_string())]);
    let mut buf = String::new();
    emit_expression(&mut buf, &empty, 0, 4);
    buf.push('|');
    emit_expression(&mut buf, &one, 0, 4);
    buf.push('|');
    emit_expression(&mut buf, &two, 0, 4);
    assert_eq!(buf, "{}|{\"a-b\": 1}|[\n    1,\n    2,\n]");
}

#[test]
fn emit_statements_indents_by_step() {
    let code = Code {
        statements: vec![JStmt::Function(
            "f".to_string(),
            vec![],
            vec![JStmt::Var("a".to_string(), JExpr::Num("1".to_string()))],
        )],
    };
    assert_eq!(emit(&code, 2), "function f() {\n  var a = 1;\n}\n");
}

fn gen() -> Generator {
    Generator { block_name: "b".to_string(), bare_element_names: vec![] }
}

fn text(s: &str) -> HStmt {
    HStmt::Format(vec![Fmt::Raw(s.to_string())])
}

#[test]
fn single_renderable_statement_is_not_wrapped() {
    let stmts = vec![
        HStmt::Let("v".to_string(), HExpr::Num("1".to_string())),
        text("only"),
    ];
    match gen().fragment(&stmts, None) {
        JExpr::Str(s) => assert_eq!(s, "only"),
        _ => panic!("expected the statement itself"),
    }
}

#[test]
fn several_statements_become_children() {
    let stmts = vec![text("a"), HStmt::Store("s".to_string(), HExpr::Num("1".to_string())), text("b")];
    let key = Some(vec![KeyPart::Lit("k".to_string())]);
    match gen().fragment(&stmts, key) {
        JExpr::Object(props) => {
            assert_eq!(props.len(), 2);
            assert_eq!(props[0].0, "key");
            assert_eq!(props[1].0, "children");
            match &props[1].1 {
                JExpr::List(items) => assert_eq!(items.len(), 2),
                _ => panic!("expected a list"),
            }
        }
        _ => panic!("expected an object"),
    }
}

#[test]
fn condition_folds_into_ternaries_with_branch_keys() {
    let out = js_of("x:\n  if a:\n    \"A\"\n  elif b:\n    \"B\"\n", "k");
    assert!(out.contains("return ((a)?(\"A\"):(((b)?(\"B\"):(\"\"))));"), "{}", out);
}

#[test]
fn iteration_maps_with_joined_key() {
    let out = js_of("x:\n  for item of items:\n    span\n", "k");
    assert!(out.contains("items.map(function (item) {"), "{}", out);
    assert!(out.contains("key: \"k:x\" + \":\" + item,"), "{}", out);
}

#[test]
fn interpolation_splits_format_strings() {
    let out = js_of("x:\n  \"a{n + 1}b\"\n", "k");
    assert!(out.contains("return \"a\" + String(n + 1) + \"b\";"), "{}", out);
    let out = js_of("x:\n  \"a{unclosed\"\n", "k");
    assert!(out.contains("return \"a{unclosed\";"), "{}", out);
}

#[test]
fn classes_merge_with_scoping_class() {
    let out = js_of("x:\n  .a.b?(on)[class=extra, title=\"t\"]\n", "blk");
    assert!(out.contains("title: \"t\""), "{}", out);
    assert!(out.contains("class: \"blk a\" + \" \" + ((on)?(\"b\"):(\"\")) + \" \" + extra"), "{}", out);
}

#[test]
fn bare_elements_get_scoping_class() {
    let out = js_of("css:\n  p\n    color: red\nhtml x:\n  p\n    \"t\"\n", "blk");
    assert!(out.contains("attrs: {class: \"blk\"}"), "{}", out);
}

#[test]
fn expression_precedence() {
    match parse_html_expr("a + b * c or not d and e").expect("parses") {
        HExpr::Or(l, r) => {
            assert!(matches!(*l, HExpr::Add(_, _)));
            match *r {
                HExpr::And(x, _) => assert!(matches!(*x, HExpr::Not(_))),
                _ => panic!("expected and"),
            }
        }
        _ => panic!("expected or"),
    }
}

fn scoped_classes(ast: &Ast) -> Vec<Vec<String>> {
    let mut out = vec![];
    for b in ast.blocks.iter() {
        if let Block::Css(_, rules) = b {
            for r in rules.iter() {
                for s in r.selectors.iter() {
                    out.push(s.classes.clone());
                }
            }
        }
    }
    out
}

#[test]
fn scoping_keeps_existing_classes() {
    let ast = parse_string("css:\n  a\n    color: red\n  .foo\n    color: blue\n").expect("parses");
    assert_eq!(visitor(&ast), vec!["a".to_string()]);
    let once = add_block_name(ast, "btn");
    assert_eq!(scoped_classes(&once), vec![vec!["btn".to_string()], vec!["btn".to_string(), "foo".to_string()]]);
    assert!(visitor(&once).is_empty());
    let twice = add_block_name(once, "btn");
    assert_eq!(scoped_classes(&twice), vec![vec!["btn".to_string()], vec!["btn".to_string(), "foo".to_string()]]);
}

#[test]
fn amd_wrapper_lists_imports_and_exports() {
    let ast = parse_string("import m from \"lib/m\"\nimport {a, b as c} from \"lib/v\"\nx:\n  \"t\"\n").expect("parses");
    let out = js::generate(
        &ast,
        &js::Settings { block_name: "b", use_amd: true, amd_name: "mod", css_text: None },
    );
    assert!(out.starts_with("define(\"mod\", [\n"), "{}", out);
    assert!(out.contains("\"lib/m\",\n"), "{}", out);
    assert!(out.contains("function (require, exports, m, _mod_lib_v) {"), "{}", out);
    assert!(out.contains("var c = _mod_lib_v.b;"), "{}", out);
    assert!(out.contains("exports.x = x\n"), "{}", out);
}

#[test]
fn css_loader_comes_first() {
    let ast = parse_string("x:\n  \"t\"\n").expect("parses");
    let out = js::generate(
        &ast,
        &js::Settings { block_name: "b", use_amd: false, amd_name: "m", css_text: Some("p {}") },
    );
    assert!(out.starts_with("var _style = document.createElement(\"style\");\n_style.appendChild(document.createTextNode(\"p {}\"))\ndocument.head.appendChild(_style)\nfunction x() {"), "{}", out);
}

#[test]
fn unescape_handles_escapes() {
    match parse_html_expr("'a\\n\\'b'").expect("parses") {
        HExpr::Str(s) => assert_eq!(s, "a\n'b"),
        _ => panic!("expected a string"),
    }
}

#[test]
fn selectors_keep_element_and_state() {
    let ast = parse_string("css:\n  a:hover, .x\n    color: red\n").expect("parses");
    match &ast.blocks[0] {
        Block::Css(_, rules) => {
            let r: &Rule = &rules[0];
            let s: &Selector = &r.selectors[0];
            assert_eq!(s.element.as_deref(), Some("a"));
            assert!(s.classes.is_empty());
            assert_eq!(s.state.as_deref(), Some("hover"));
            let s: &Selector = &r.selectors[1];
            assert_eq!(s.element, None);
            assert_eq!(s.classes, vec!["x".to_string()]);
        }
        _ => panic!("expected a style block"),
    }
}

#[test]
fn errors_have_readable_messages() {
    match parse_string("hello\n") {
        Err(e) => assert_eq!(e.message(), "expected colon, found new line at 1:6"),
        Ok(_) => panic!("parsed"),
    }
    match parse_string("x:\n  = f)\n") {
        Err(e) => assert_eq!(e.message(), "unmatched closing bracket at 2:6"),
        Ok(_) => panic!("parsed"),
    }
    match parse_string("a $\n") {
        Err(e) => assert_eq!(e.message(), "unexpected character $ at 1:3"),
        Ok(_) => panic!("parsed"),
    }
}

#[test]
fn block_with_two_statements_lists_children() {
    let out = js_of("x:\n  \"a\"\n  = b\n", "k");
    assert_eq!(
        out,
        "function x() {\n    return {\n            key: \"k:x\",\n            children: [\n                \"a\",\n                b,\n            ],\n        };\n}\n"
    );
}

#[test]
fn multi_link_binds_each_attribute() {
    let out = js_of("x:\n  div\n    link {value: change, checked[ev.ok]} = s\n", "k");
    assert!(out.contains("var _stream_0 = s;"), "{}", out);
    assert!(out.contains("change: _stream_0.value.handle_event"), "{}", out);
    assert!(out.contains("checked: _stream_0.checked.filter(function (ev) {"), "{}", out);
}

#[test]
fn empty_source_has_no_blocks() {
    let ast = parse_string("").expect("parses");
    assert!(ast.blocks.is_empty());
    let toks = tokenize("").expect("tokenizes");
    assert_eq!(toks.len(), 1);
    assert_eq!(toks[0].kind, TokenType::Eof);
}

#[test]
fn empty_string_literal_renders_empty_text() {
    let out = js_of("x:\n  \"\"\n", "k");
    assert!(out.contains("return \"\";"), "{}", out);
}

#[test]
fn comments_and_blank_lines_are_skipped() {
    let toks = tokenize("# head\na:\n\n   \n  b  # tail\n").expect("tokenizes");
    let kinds: Vec<TokenType> = toks.iter().map(|t| t.kind).collect();
    assert_eq!(
        kinds,
        vec![
            TokenType::Ident, TokenType::Colon, TokenType::Newline, TokenType::Indent,
            TokenType::Ident, TokenType::Newline, TokenType::Dedent, TokenType::Eof
        ]
    );
}

#[test]
fn precedence_nests_or_and_comparison_sum_product() {
    match parse_html_expr("a or b and c == d + e * f").expect("parses") {
        HExpr::Or(l, r) => {
            assert!(matches!(*l, HExpr::Name(ref n) if n == "a"));
            match *r {
                HExpr::And(b, c) => {
                    assert!(matches!(*b, HExpr::Name(ref n) if n == "b"));
                    match *c {
                        HExpr::Comparison(Comparator::Eq, x, y) => {
                            assert!(matches!(*x, HExpr::Name(ref n) if n == "c"));
                            match *y {
                                HExpr::Add(d, m) => {
                                    assert!(matches!(*d, HExpr::Name(ref n) if n == "d"));
                                    assert!(matches!(*m, HExpr::Mul(_, _)));
                                }
                                _ => panic!("expected a sum"),
                            }
                        }
                        _ => panic!("expected a comparison"),
                    }
                }
                _ => panic!("expected and"),
            }
        }
        _ => panic!("expected or"),
    }
}

#[test]
fn postfix_chain_folds_left() {
    match parse_html_expr("not a.b(c, 1)[d]").expect("parses") {
        HExpr::Not(x) => match *x {
            HExpr::Item(base, idx) => {
                assert!(matches!(*idx, HExpr::Name(ref n) if n == "d"));
                match *base {
                    HExpr::Call(f, args) => {
                        assert!(matches!(*f, HExpr::Attr(_, ref a) if a == "b"));
                        assert_eq!(args.len(), 2);
                        assert!(matches!(args[1], HExpr::Num(ref n) if n == "1"));
                    }
                    _ => panic!("expected a call"),
                }
            }
            _ => panic!("expected an item access"),
        },
        _ => panic!("expected not"),
    }
}

#[test]
fn format_string_pieces() {
    let pieces = marafet::html_grammar::parse_format_string(&"Hi {name}!".to_string());
    assert_eq!(pieces.len(), 3);
    assert!(matches!(pieces[0], Fmt::Raw(ref s) if s == "Hi "));
    assert!(matches!(pieces[1], Fmt::Str(HExpr::Name(ref n)) if n == "name"));
    assert!(matches!(pieces[2], Fmt::Raw(ref s) if s == "!"));
    let pieces = marafet::html_grammar::parse_format_string(&"a{+}b".to_string());
    assert_eq!(pieces.len(), 2);
    assert!(matches!(pieces[0], Fmt::Raw(ref s) if s == "a"));
    assert!(matches!(pieces[1], Fmt::Raw(ref s) if s == "{+}b"));
    let pieces = marafet::html_grammar::parse_format_string(&"a{x".to_string());
    assert_eq!(pieces.len(), 1);
    assert!(matches!(pieces[0], Fmt::Raw(ref s) if s == "a{x"));
}

#[test]
fn css_mode_reads_dashed_words() {
    let toks = tokenize("css:\n  .foo-bar:\n").expect("tokenizes");
    let kinds: Vec<TokenType> = toks.iter().map(|t| t.kind).collect();
    assert_eq!(
        kinds,
        vec![
            TokenType::Css, TokenType::Colon, TokenType::Newline, TokenType::Indent, TokenType::Dot,
            TokenType::CssWord, TokenType::Colon, TokenType::Newline, TokenType::Dedent, TokenType::Eof
        ]
    );
    assert_eq!(toks[5].text, "foo-bar");
}

#[test]
fn newlines_inside_brackets_are_swallowed() {
    let toks = tokenize("f(a,\n  b)\n").expect("tokenizes");
    let kinds: Vec<TokenType> = toks.iter().map(|t| t.kind).collect();
    assert_eq!(
        kinds,
        vec![
            TokenType::Ident, TokenType::OpenParen, TokenType::Ident, TokenType::Comma, TokenType::Ident,
            TokenType::CloseParen, TokenType::Newline, TokenType::Eof
        ]
    );
}

#[test]
fn no_dedent_inside_brackets() {
    let toks = tokenize("x:\n  f(\nb)\n").expect("tokenizes");
    let kinds: Vec<TokenType> = toks.iter().map(|t| t.kind).collect();
    assert_eq!(
        kinds,
        vec![
            TokenType::Ident, TokenType::Colon, TokenType::Newline, TokenType::Indent, TokenType::Ident,
            TokenType::OpenParen, TokenType::Ident, TokenType::CloseParen, TokenType::Newline, TokenType::Dedent,
            TokenType::Eof
        ]
    );
}

#[test]
fn two_handlers_for_one_event_become_a_list() {
    let out = js_of("x:\n  div\n    link click = a\n    link click = b\n", "k");
    assert!(out.contains("events: {click: ["), "{}", out);
    assert!(out.contains("a.handle_event,"), "{}", out);
    assert!(out.contains("b.handle_event,"), "{}", out);
}
