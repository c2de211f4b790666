use vstd::prelude::*;
use crate::ast::Ast;
use crate::emit::{emit, emit_stmts};
use crate::js_ast::Statement as JStmt;
use crate::lower::{Generator, code_lowered};
use crate::util::to_owned_string;

verus! {

/// Options of the JavaScript output.
pub struct Settings<'a> {
    /// The scoping class and the prefix of every node key.
    pub block_name: &'a str,
    /// Whether to wrap the code in an AMD module definition.
    pub use_amd: bool,
    /// The name of that module.
    pub amd_name: &'a str,
    /// CSS text to load into the document when the module runs.
    pub css_text: Option<&'a str>,
}

/// The width of one level of indentation in the generated code.
pub const INDENT: usize = 4;

/// How the generated program is made for `blocks`: `code` is the
/// lowering of the markup blocks (with `bare` the element names that style
/// rules select without a class), `loaded` is it after the CSS loader when
/// there is CSS to load, and `out` is that wrapped in a module definition
/// when one is asked for.
pub open spec fn js_output(
    blocks: Seq<crate::ast::Block>,
    settings: Settings,
    bare: Seq<String>,
    code: Seq<JStmt>,
    loaded: Seq<JStmt>,
    out: Seq<JStmt>,
) -> bool {
    &&& crate::util::views(bare).to_set() == crate::visitors::bare_blocks(blocks)
    &&& code_lowered(crate::lower::Scope { block: settings.block_name@, bare: crate::util::views(bare) }, blocks, code)
    &&& match settings.css_text {
        None => loaded == code,
        Some(css) => crate::amd::css_added(code, css@, loaded),
    }
    &&& if settings.use_amd {
        crate::amd::amd_wrapped(loaded, blocks, settings.amd_name@, out)
    } else {
        out == loaded
    }
}

/// The JavaScript text for the markup blocks of `ast`: one render function
/// per block, with the CSS loader before them and the module wrapper around
/// them when the settings ask for those.
pub fn generate(ast: &Ast, settings: &Settings) -> (r: String)
    ensures
        exists|bare: Seq<String>, code: Seq<JStmt>, loaded: Seq<JStmt>, out: Seq<JStmt>|
            #[trigger] js_output(ast.blocks@, *settings, bare, code, loaded, out) && r@ == emit_stmts(out, 0, INDENT),
{
    let gen = Generator {
        block_name: to_owned_string(settings.block_name),
        bare_element_names: crate::visitors::visitor(ast),
    };
    let mut code = gen.code(ast);
    let ghost lowered = code.statements@;
    match settings.css_text {
        Some(css) => {
            code = gen.add_css(code, css);
        },
        None => {},
    }
    let ghost loaded = code.statements@;
    if settings.use_amd {
        code = gen.wrap_amd(code, ast, settings.amd_name);
    }
    let r = emit(&code, INDENT);
    assert(code_lowered(gen.scope(), ast.blocks@, lowered));
    let ghost out = code.statements@;
    let ghost bare = gen.bare_element_names@;
    assert(match settings.css_text {
        None => loaded == lowered,
        Some(css) => crate::amd::css_added(lowered, css@, loaded),
    });
    assert(if settings.use_amd {
        crate::amd::amd_wrapped(loaded, ast.blocks@, settings.amd_name@, out)
    } else {
        out == loaded
    });
    assert(gen.scope() == crate::lower::Scope { block: settings.block_name@, bare: crate::util::views(bare) });
    assert(r@ == emit_stmts(out, 0, INDENT));
    assert(js_output(ast.blocks@, *settings, bare, lowered, loaded, out));
    r
}

} // verus!
