use vstd::prelude::*;

pub mod chars;
pub mod compiler;
pub mod laws;
pub mod lexer;
pub mod parser;

pub use compiler::Compiler;
pub use lexer::Token;
pub use lexer::Tokenizer;
pub use parser::{Ast, AstNode, AstNodeType, Parser};

verus! {

/// The output text for input `s`, where its token sequence parses: every
/// top-level expression rendered and `;`-closed, newline-joined.
pub open spec fn compile_spec(s: Seq<char>) -> Seq<char> {
    compiler::render_body(parser::parse_spec(lexer::lex_spec(s)).unwrap())
}

/// Translates source text in one pass: tokens, then tree, then target text.
/// The caller owes input whose token sequence parses; on any other this
/// function would abort rather than return.
pub fn compile(input: &str) -> (r: String)
    requires
        parser::parse_spec(lexer::lex_spec(input@)) is Some,
    ensures
        r@ == compile_spec(input@),
{
    let tokens = Tokenizer::new(input).get_tokens();
    let ast = Parser::new(tokens).parse();
    Compiler::new(ast).compile()
}

/// Translates source text where its token sequence parses, and reports the
/// fatal parse failure as `None` instead of aborting.
pub fn try_compile(input: &str) -> (r: Option<String>)
    ensures
        parser::parse_spec(lexer::lex_spec(input@)) is Some ==> r is Some && r.unwrap()@
            == compile_spec(input@),
        parser::parse_spec(lexer::lex_spec(input@)) is None ==> r is None,
{
    let tokens = Tokenizer::new(input).get_tokens();
    let mut p = Parser::new(tokens);
    if p.try_parse().is_some() {
        Some(compile(input))
    } else {
        None
    }
}

} // verus!
