//! The front end in one call: lex the whole text, then parse the token
//! stream.

use vstd::prelude::*;

use crate::ast::Ast;
use crate::ast::ast_model;
use crate::lexer::Lexer;
use crate::lexer::spec_read_all;
use crate::parser::ParseError;
use crate::parser::Parser;
use crate::parser::err_matches;
use crate::parser::spec_parse;

verus! {

/// Lexes `input` into its full token stream and parses it into one
/// abstract syntax tree; a text that holds no complete expression yields
/// the parse error the grammar names.
pub fn parse(input: &str) -> (r: Result<Ast, ParseError>)
    requires
        input@.len() < usize::MAX,
    ensures
        ({
            let toks = spec_read_all(input@, 0);
            match r {
                Ok(a) => (spec_parse(toks, 0) matches Ok(p) && p.0 == ast_model(a)),
                Err(pe) => (spec_parse(toks, 0) matches Err(m) && err_matches(pe, m, toks)),
            }
        }),
{
    let mut lexer = Lexer::new(String::from_str(input));
    let tokens = lexer.read_all();
    let mut parser = Parser::new(tokens);
    parser.parse()
}

} // verus!
