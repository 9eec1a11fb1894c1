//! Compiling and linting named templates.
use vstd::prelude::*;

use crate::error::{ErrorV, SyntaxError, SyntaxResult};
use crate::lexer::Lexer;
use crate::parser::ast::{Node, NodeV};
use crate::parser::path::{line_budget, runs_ok};
use crate::parser::{doc_spec, lemma_collecting_parse, PState, Parser, ParserOptions};

verus! {

/// The state a parser starts in over a lexer, at the top of a template.
pub open spec fn start_state<'s>(lexer: Lexer<'s>) -> PState<'s> {
    PState { stack: Seq::empty(), held: None, rest: lexer.rest(), line: 0, byte: 0 }
}

/// Compile the template named `name` to its syntax tree; errors carry the
/// name.
pub fn parse<'s>(name: &str, lexer: Lexer<'s>) -> (res: SyntaxResult<Node<'s>>)
    requires
        lexer.wf(),
        runs_ok(lexer.rest()),
        line_budget(0, lexer.rest(), false) < usize::MAX,
    ensures
        ({
            let o = doc_spec(lexer.src(), start_state(lexer), None, Seq::empty());
            match res {
                Ok(n) => o.res matches Ok(d) && n@ == NodeV::Document(d),
                Err(e) => o.res == Err::<crate::parser::ast::DocumentV<'s>, ErrorV>(e@) && e.info.file_name@
                    == name@,
            }
        }),
{
    let options = ParserOptions::new(name.to_owned(), 0, 0);
    let mut parser = Parser::new(lexer, options);
    parser.parse()
}

/// Lint the template named `name`: parse it collecting every syntax error
/// instead of stopping at the first, and return the errors.
pub fn lint<'s>(name: &str, lexer: Lexer<'s>) -> (res: Vec<SyntaxError>)
    requires
        lexer.wf(),
        runs_ok(lexer.rest()),
        line_budget(0, lexer.rest(), false) < usize::MAX,
    ensures
        Some(res@.map_values(|e: SyntaxError| e@)) == doc_spec(
            lexer.src(),
            start_state(lexer),
            Some(Seq::empty()),
            Seq::empty(),
        ).collected,
        (res@.len() == 0) <==> doc_spec(lexer.src(), start_state(lexer), None, Seq::empty()).res is Ok,
        doc_spec(lexer.src(), start_state(lexer), None, Seq::empty()).res matches Err(e) ==> res@[0]@ == e,
{
    proof {
        crate::parser::lemma_lint_parse(lexer.src(), start_state(lexer));
    }
    let options = ParserOptions::new(name.to_owned(), 0, 0);
    let mut parser = Parser::new(lexer, options);
    let errors: Vec<SyntaxError> = Vec::new();
    proof {
        assert(errors@.map_values(|e: SyntaxError| e@) =~= Seq::<ErrorV>::empty());
        lemma_collecting_parse(lexer.src(), start_state(lexer), Seq::empty(), Seq::empty());
    }
    parser.set_errors(errors);
    let _doc = parser.parse();
    match parser.into_errors() {
        Some(v) => v,
        None => Vec::new(),
    }
}

} // verus!
