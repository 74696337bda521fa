use vstd::prelude::*;

use crate::err::ErrorView;
use crate::err::JiraiErr;
use crate::html::html_outcome;
use crate::html::render_document;
use crate::html::HTMLCodeGenerator;
use crate::html::Rendered;
use crate::lexer::lex;
use crate::lexer::tokenize_string;
use crate::parser::document_spec;
use crate::parser::statements_view;
use crate::parser::Parser;
use crate::parser::SourceType;

verus! {

/// The HTML of Jirai source `s`: tokens, then statements, then HTML, each
/// stage stopping at its first error.
pub open spec fn compile_spec(s: Seq<char>, minify: bool, alt_enforcing: bool) -> Rendered {
    match lex(s) {
        Err(e) => Err(e),
        Ok(ts) => if ts.len() == 0 {
            Err(ErrorView::EmptyTokenStream)
        } else {
            match document_spec(ts, 0) {
                Err(e) => Err(e),
                Ok(ss) => if ss.len() == 0 {
                    Err(ErrorView::EmptyAst)
                } else {
                    render_document(ss, minify, alt_enforcing)
                },
            }
        },
    }
}

/// Compiles Jirai source code into HTML.
pub fn to_html(source: &str, minify: &bool, alt_enforcing: &bool, source_type: &SourceType) -> (r:
    Result<String, JiraiErr>)
    ensures
        html_outcome(r, compile_spec(source@, *minify, *alt_enforcing)),
{
    let tokens = match tokenize_string(source) {
        Ok(t) => t,
        Err(e) => {
            return Err(e);
        },
    };
    let mut parser = match Parser::new(source_type, &tokens) {
        Ok(p) => p,
        Err(e) => {
            return Err(e);
        },
    };
    let parsed = match parser.parse() {
        Ok(p) => p,
        Err(e) => {
            return Err(e);
        },
    };
    let mut code_generator = match HTMLCodeGenerator::new(minify, alt_enforcing, &parsed) {
        Ok(g) => g,
        Err(e) => {
            return Err(e);
        },
    };
    proof {
        let ss = statements_view(code_generator.statements@);
        assert(ss.subrange(0, code_generator.statements@.len() as int) =~= ss);
    }
    code_generator.generate()
}

} // verus!
