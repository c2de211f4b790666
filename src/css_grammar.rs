use vstd::prelude::*;
use crate::ast::Block;
use crate::css_ast::{Param, Rule, Selector};
use crate::grammar::{advanced, error_at, expect, peek, text_at, tokens_ok};
use crate::html_grammar::{PResult, agrees, closing, kinds, tk};
use crate::token::{Token, TokenType as Tok};
use crate::util::join;

verus! {

/// Where a style-block parameter starting at `p` ends.
pub open spec fn c_param(ks: Seq<Tok>, p: int) -> Option<int> {
    if !tk(ks, p, Tok::CssWord) {
        None
    } else if tk(ks, p + 1, Tok::Equals) {
        closing(ks, p + 2, Tok::String)
    } else {
        Some(p + 1)
    }
}

/// Where a property value starting at `p` ends.
pub open spec fn c_value(ks: Seq<Tok>, p: int) -> Option<int>
    decreases ks.len() - p,
{
    if !(0 <= p < ks.len()) {
        None
    } else if ks[p] == Tok::CssWord {
        if tk(ks, p + 1, Tok::OpenParen) {
            match c_value(ks, p + 2) {
                Some(q) => if p + 2 <= q && tk(ks, q, Tok::CloseParen) { c_value(ks, q + 1) } else { None },
                None => None,
            }
        } else {
            c_value(ks, p + 1)
        }
    } else if ks[p] == Tok::Comma {
        c_value(ks, p + 1)
    } else {
        Some(p)
    }
}

/// An optional `:state` at `q`.
pub open spec fn c_state(ks: Seq<Tok>, q: int) -> Option<int> {
    if tk(ks, q, Tok::Colon) && tk(ks, q + 1, Tok::CssWord) { Some(q + 2) } else { Some(q) }
}

/// Classes from `q` on, then the optional state.
pub open spec fn c_dots(ks: Seq<Tok>, q: int) -> Option<int>
    decreases ks.len() - q,
{
    if tk(ks, q, Tok::Dot) {
        if tk(ks, q + 1, Tok::CssWord) { c_dots(ks, q + 2) } else { None }
    } else {
        c_state(ks, q)
    }
}

/// Where a selector starting at `p` ends.
pub open spec fn c_selector(ks: Seq<Tok>, p: int) -> Option<int> {
    if !(0 <= p < ks.len()) {
        None
    } else if ks[p] == Tok::CssWord {
        c_dots(ks, p + 1)
    } else {
        c_dots(ks, p)
    }
}

/// Properties from `q` on, then the unindent.
pub open spec fn c_plist(ks: Seq<Tok>, q: int) -> Option<int>
    decreases ks.len() - q,
{
    if tk(ks, q, Tok::CssWord) {
        if tk(ks, q + 1, Tok::Colon) {
            match c_value(ks, q + 2) {
                Some(r) => if q + 2 <= r && tk(ks, r, Tok::Newline) { c_plist(ks, r + 1) } else { None },
                None => None,
            }
        } else {
            None
        }
    } else {
        closing(ks, q, Tok::Dedent)
    }
}

/// An optional indented list of properties at `q`.
pub open spec fn c_props(ks: Seq<Tok>, q: int) -> Option<int> {
    if tk(ks, q, Tok::Indent) { c_plist(ks, q + 1) } else { Some(q) }
}

/// After the selectors: an optional colon, the line end, the properties.
pub open spec fn c_after_sels(ks: Seq<Tok>, q: int) -> Option<int> {
    let q1 = if tk(ks, q, Tok::Colon) { q + 1 } else { q };
    if tk(ks, q1, Tok::Newline) { c_props(ks, q1 + 1) } else { None }
}

/// Further selectors from `q` on, then the rest of the rule.
pub open spec fn c_sels(ks: Seq<Tok>, q: int) -> Option<int>
    decreases ks.len() - q,
{
    if tk(ks, q, Tok::Comma) {
        match c_selector(ks, q + 1) {
            Some(q2) => if q < q2 <= ks.len() { c_sels(ks, q2) } else { None },
            None => None,
        }
    } else {
        c_after_sels(ks, q)
    }
}

/// Where a rule starting at `p` ends.
pub open spec fn c_rule(ks: Seq<Tok>, p: int) -> Option<int> {
    match c_selector(ks, p) {
        Some(q) => if p <= q <= ks.len() { c_sels(ks, q) } else { None },
        None => None,
    }
}

/// A parameter at `p` (after an opener or a comma), then the rest.
pub open spec fn c_param_then(ks: Seq<Tok>, p: int) -> Option<int>
    decreases ks.len() - p, 1nat,
{
    match c_param(ks, p) {
        Some(q) => if p - 1 < q <= ks.len() { c_params_t(ks, q) } else { None },
        None => None,
    }
}

/// Further parameters from `q` on, then the closing parenthesis.
pub open spec fn c_params_t(ks: Seq<Tok>, q: int) -> Option<int>
    decreases ks.len() - q, 0nat,
{
    if tk(ks, q, Tok::Comma) && 0 <= q {
        c_param_then(ks, q + 1)
    } else {
        closing(ks, q, Tok::CloseParen)
    }
}

/// The optional parameter list of a style block.
pub open spec fn c_head(ks: Seq<Tok>, p: int) -> Option<int> {
    if tk(ks, p, Tok::OpenParen) {
        if tk(ks, p + 1, Tok::CssWord) { c_param_then(ks, p + 1) } else { closing(ks, p + 1, Tok::CloseParen) }
    } else {
        Some(p)
    }
}

/// Rules from `q` on, then the unindent.
pub open spec fn c_rules(ks: Seq<Tok>, q: int) -> Option<int>
    decreases ks.len() - q,
{
    if !(0 <= q < ks.len()) {
        None
    } else if starts_rule(ks[q]) {
        match c_rule(ks, q) {
            Some(q2) => if q < q2 <= ks.len() { c_rules(ks, q2) } else { None },
            None => None,
        }
    } else {
        closing(ks, q, Tok::Dedent)
    }
}

/// Where a style block after its keyword ends.
pub open spec fn c_block(ks: Seq<Tok>, p: int) -> Option<int> {
    match c_head(ks, p) {
        Some(q) => if tk(ks, q, Tok::Colon) && tk(ks, q + 1, Tok::Newline) {
            if tk(ks, q + 2, Tok::Indent) { c_rules(ks, q + 3) } else { Some(q + 2) }
        } else {
            None
        },
        None => None,
    }
}

/// A parameter of a style block: a word with an optional string default,
/// kept as written.
pub fn param(toks: &Vec<Token>, pos: usize) -> (r: PResult<Param>)
    requires
        tokens_ok(toks@),
        pos < toks@.len(),
    ensures
        agrees(r, c_param(kinds(toks@), pos as int)),
        r matches Ok((_, p)) ==> pos < p < toks@.len(),
        r matches Ok((v, _)) ==> v.name@ == toks@[pos as int].text@,
{
    let name = text_at(toks, pos);
    let p = expect(toks, pos, Tok::CssWord)?;
    if peek(toks, p) == Tok::Equals {
        let q = expect(toks, p, Tok::Equals)?;
        let v = text_at(toks, q);
        let q1 = expect(toks, q, Tok::String)?;
        Ok((Param { name, default_value: Some(v) }, q1))
    } else {
        Ok((Param { name, default_value: None }, p))
    }
}

/// A property value: words (each optionally followed by a parenthesised
/// value) and commas, joined by single spaces.
pub fn property_value(toks: &Vec<Token>, pos: usize) -> (r: PResult<String>)
    requires
        tokens_ok(toks@),
        pos < toks@.len(),
    ensures
        agrees(r, c_value(kinds(toks@), pos as int)),
        r matches Ok((_, p)) ==> advanced(toks@, pos as int, p as int),
    decreases toks@.len() - pos,
{
    let mut words: Vec<String> = Vec::new();
    let mut p = pos;
    loop
        invariant
            c_value(kinds(toks@), pos as int) == c_value(kinds(toks@), p as int),
            tokens_ok(toks@),
            pos <= p < toks@.len(),
        decreases toks@.len() - p,
    {
        let k = peek(toks, p);
        if k == Tok::CssWord {
            let mut word = text_at(toks, p);
            let q = expect(toks, p, Tok::CssWord)?;
            if peek(toks, q) == Tok::OpenParen {
                let q1 = expect(toks, q, Tok::OpenParen)?;
                let (inner, q2) = property_value(toks, q1)?;
                let q3 = expect(toks, q2, Tok::CloseParen)?;
                crate::util::push_char(&mut word, '(');
                word.append(inner.as_str());
                crate::util::push_char(&mut word, ')');
                p = q3;
            } else {
                p = q;
            }
            words.push(word);
        } else if k == Tok::Comma {
            words.push(text_at(toks, p));
            p = expect(toks, p, Tok::Comma)?;
        } else {
            return Ok((join(&words, " "), p));
        }
    }
}

/// A dot at `i`, then the word `name`.
pub open spec fn class_at(toks: Seq<Token>, i: int, name: String) -> bool {
    toks[i].kind == Tok::Dot && toks[i + 1].kind == Tok::CssWord && toks[i + 1].text@ == name@
}

/// Whether `toks[a..b]` spells the selector `sel`: the element's word (if
/// any), a dot and a word per class, and a colon and a word for the state
/// (if any).
pub open spec fn selector_derives(toks: Seq<Token>, a: int, b: int, sel: Selector) -> bool {
    let c = if sel.element is Some { 1int } else { 0int };
    let d = a + c + 2 * sel.classes@.len();
    &&& (sel.element matches Some(e) ==> toks[a].kind == Tok::CssWord && toks[a].text@ == e@)
    &&& forall|i: int| #![trigger sel.classes@[i]] 0 <= i < sel.classes@.len() ==> class_at(toks, a + c + 2 * i, sel.classes@[i])
    &&& match sel.state {
        Some(st) => toks[d].kind == Tok::Colon && toks[d + 1].kind == Tok::CssWord && toks[d + 1].text@ == st@
            && b == d + 2,
        None => b == d,
    }
}

/// A selector: an optional element, `.class` parts, and an optional
/// `:state`. A colon not followed by a word is left for the rule.
pub fn selector(toks: &Vec<Token>, pos: usize) -> (r: PResult<Selector>)
    requires
        tokens_ok(toks@),
        pos < toks@.len(),
    ensures
        agrees(r, c_selector(kinds(toks@), pos as int)),
        r matches Ok((_, p)) ==> advanced(toks@, pos as int, p as int),
        r matches Ok((sel, p)) ==> selector_derives(toks@, pos as int, p as int, sel),
        r matches Ok((sel, _)) ==> (sel.element is Some <==> toks@[pos as int].kind == Tok::CssWord),
{
    let mut p = pos;
    let element = if peek(toks, p) == Tok::CssWord {
        let e = text_at(toks, p);
        p = expect(toks, p, Tok::CssWord)?;
        Some(e)
    } else {
        None
    };
    let ghost c: int = if element is Some { 1int } else { 0int };
    let ghost start: int = pos + c;
    let mut classes: Vec<String> = Vec::new();
    assert(p == start);
    while peek(toks, p) == Tok::Dot
        invariant
            c_selector(kinds(toks@), pos as int) == c_dots(kinds(toks@), p as int),
            tokens_ok(toks@),
            pos <= p < toks@.len(),
            p == start + 2 * classes@.len(),
            forall|i: int|
                #![trigger classes@[i]]
                0 <= i < classes@.len() ==> class_at(toks@, start + 2 * i, classes@[i]),
        decreases toks@.len() - p,
    {
        let ghost p0 = p as int;
        let ghost before = classes@;
        let q = expect(toks, p, Tok::Dot)?;
        let name = text_at(toks, q);
        p = expect(toks, q, Tok::CssWord)?;
        classes.push(name);
        assert(class_at(toks@, p0, name));
        assert forall|i: int| #![trigger classes@[i]] 0 <= i < classes@.len() implies class_at(toks@, start + 2 * i, classes@[i]) by {
            if i < before.len() {
                assert(classes@[i] == before[i]);
            } else {
                assert(start + 2 * i == p0);
            }
        }
    }
    let ghost d = p as int;
    let mut state = None;
    if peek(toks, p) == Tok::Colon && p < toks.len() - 1 && peek(toks, p + 1) == Tok::CssWord {
        let q = expect(toks, p, Tok::Colon)?;
        state = Some(text_at(toks, q));
        p = expect(toks, q, Tok::CssWord)?;
    }
    let ghost el = element;
    let sel = Selector { element, classes, state };
    assert(d == pos + c + 2 * sel.classes@.len());
    assert(el matches Some(e) ==> toks@[pos as int].kind == Tok::CssWord && toks@[pos as int].text@ == e@);
    assert(selector_derives(toks@, pos as int, p as int, sel));
    Ok((sel, p))
}

/// Whether `toks[a..b]` spells the selectors `sels` separated by commas.
pub open spec fn selectors_derive(toks: Seq<Token>, a: int, b: int, sels: Seq<Selector>) -> bool
    decreases sels.len(),
{
    if sels.len() == 0 {
        false
    } else if sels.len() == 1 {
        selector_derives(toks, a, b, sels[0])
    } else {
        exists|m: int| #![trigger toks[m]]
            a <= m < b && toks[m].kind == Tok::Comma && selectors_derive(toks, a, m, sels.drop_last())
                && selector_derives(toks, m + 1, b, sels.last())
    }
}

/// The token kinds that can start a rule.
pub open spec fn starts_rule(k: Tok) -> bool {
    k == Tok::CssWord || k == Tok::Dot || k == Tok::Colon || k == Tok::Comma || k == Tok::Newline
}

fn starts_rule_exec(k: Tok) -> (r: bool)
    ensures
        r == starts_rule(k),
{
    k == Tok::CssWord || k == Tok::Dot || k == Tok::Colon || k == Tok::Comma || k == Tok::Newline
}

/// A rule: selectors separated by commas, an optional colon, the end of
/// the line, then an optional indented list of `name: value` properties.
pub fn rule(toks: &Vec<Token>, pos: usize) -> (r: PResult<Rule>)
    requires
        tokens_ok(toks@),
        pos < toks@.len(),
    ensures
        agrees(r, c_rule(kinds(toks@), pos as int)),
        r matches Ok((_, p)) ==> pos < p < toks@.len(),
        r matches Ok((rl, _)) ==> exists|m: int| #![trigger toks@[m]]
            pos <= m < toks@.len() && selectors_derive(toks@, pos as int, m, rl.selectors@) && (toks@[m].kind == Tok::Colon
                || toks@[m].kind == Tok::Newline),
{
    let mut selectors: Vec<Selector> = Vec::new();
    let (first, mut p) = selector(toks, pos)?;
    selectors.push(first);
    assert(selectors@[0] == first);
    while peek(toks, p) == Tok::Comma
        invariant
            c_rule(kinds(toks@), pos as int) == c_sels(kinds(toks@), p as int),
            tokens_ok(toks@),
            pos <= p < toks@.len(),
            selectors@.len() >= 1,
            selectors_derive(toks@, pos as int, p as int, selectors@),
        decreases toks@.len() - p,
    {
        let q = expect(toks, p, Tok::Comma)?;
        let (s, q1) = selector(toks, q)?;
        let ghost before = selectors@;
        selectors.push(s);
        assert(selectors@.drop_last() == before);
        assert(toks@[p as int].kind == Tok::Comma && selectors_derive(toks@, pos as int, p as int, before) && selector_derives(toks@, p + 1, q1 as int, s));
        p = q1;
    }
    let ghost m = p as int;
    let ghost sels = selectors@;
    if peek(toks, p) == Tok::Colon {
        p = expect(toks, p, Tok::Colon)?;
    }
    p = expect(toks, p, Tok::Newline)?;
    let mut properties: Vec<(String, String)> = Vec::new();
    if peek(toks, p) == Tok::Indent {
        p = expect(toks, p, Tok::Indent)?;
        while peek(toks, p) == Tok::CssWord
            invariant
                c_rule(kinds(toks@), pos as int) == c_plist(kinds(toks@), p as int),
                tokens_ok(toks@),
                pos < p < toks@.len(),
            decreases toks@.len() - p,
        {
            let name = text_at(toks, p);
            let q = expect(toks, p, Tok::CssWord)?;
            let q1 = expect(toks, q, Tok::Colon)?;
            let (value, q2) = property_value(toks, q1)?;
            let q3 = expect(toks, q2, Tok::Newline)?;
            properties.push((name, value));
            p = q3;
        }
        p = expect(toks, p, Tok::Dedent)?;
    }
    let rl = Rule { selectors, properties };
    assert(toks@[m].kind == Tok::Colon || toks@[m].kind == Tok::Newline);
    assert(selectors_derive(toks@, pos as int, m, rl.selectors@));
    Ok((rl, p))
}

/// A style block after its keyword: optional parameters, a colon, and an
/// optional indented list of rules.
pub fn block(toks: &Vec<Token>, pos: usize) -> (r: PResult<Block>)
    requires
        tokens_ok(toks@),
        pos < toks@.len(),
    ensures
        agrees(r, c_block(kinds(toks@), pos as int)),
        r matches Ok((_, p)) ==> pos < p < toks@.len(),
        r matches Ok((b, _)) ==> b is Css,
{
    let mut p = pos;
    let mut params: Vec<Param> = Vec::new();
    if peek(toks, p) == Tok::OpenParen {
        p = expect(toks, p, Tok::OpenParen)?;
        if peek(toks, p) == Tok::CssWord {
            let mut more = true;
            while more
                invariant
                    more ==> c_head(kinds(toks@), pos as int) == c_param_then(kinds(toks@), p as int),
                    !more ==> c_head(kinds(toks@), pos as int) == closing(kinds(toks@), p as int, Tok::CloseParen),
                    tokens_ok(toks@),
                    pos < p < toks@.len(),
                decreases toks@.len() - p + if more { 1int } else { 0int },
            {
                let (v, q) = param(toks, p)?;
                params.push(v);
                p = q;
                if peek(toks, p) == Tok::Comma {
                    p = expect(toks, p, Tok::Comma)?;
                } else {
                    more = false;
                }
            }
        }
        p = expect(toks, p, Tok::CloseParen)?;
    }
    p = expect(toks, p, Tok::Colon)?;
    p = expect(toks, p, Tok::Newline)?;
    let mut rules: Vec<Rule> = Vec::new();
    if peek(toks, p) == Tok::Indent {
        p = expect(toks, p, Tok::Indent)?;
        while starts_rule_exec(peek(toks, p))
            invariant
                c_block(kinds(toks@), pos as int) == c_rules(kinds(toks@), p as int),
                tokens_ok(toks@),
                pos < p < toks@.len(),
            decreases toks@.len() - p,
        {
            let (rl, q) = rule(toks, p)?;
            rules.push(rl);
            p = q;
        }
        p = expect(toks, p, Tok::Dedent)?;
    }
    Ok((Block::Css(params, rules), p))
}

} // verus!
