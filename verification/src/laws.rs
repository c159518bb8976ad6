use vstd::prelude::*;

use crate::compile_spec;
use crate::compiler::{render_body, render_node, render_params};
use crate::lexer::lex_spec;
use crate::parser::{parse_spec, NodeV};

verus! {

/// Any input holding a single top-level expression compiles to that
/// expression's rendering closed by `;`.
pub proof fn lemma_single_expression_output(input: Seq<char>)
    requires
        parse_spec(lex_spec(input)) is Some,
        parse_spec(lex_spec(input)).unwrap().len() == 1,
    ensures
        compile_spec(input) == render_node(parse_spec(lex_spec(input)).unwrap()[0]) + seq![';'],
{
}

/// Any input holding a single top-level call compiles to the call's name,
/// its comma-space-joined rendered arguments in parentheses, and `;`,
/// with nesting rendered by the same rule inside `render_params`.
pub proof fn lemma_single_call_output(input: Seq<char>, name: Seq<char>, args: Seq<NodeV>)
    requires
        parse_spec(lex_spec(input)) == Some(seq![NodeV::CallExpression(name, args)]),
    ensures
        compile_spec(input) == name + seq!['('] + render_params(args) + seq![')'] + seq![';'],
{
    let body = parse_spec(lex_spec(input)).unwrap();
    assert(body[0] == NodeV::CallExpression(name, args));
    assert(compile_spec(input) =~= name + seq!['('] + render_params(args) + seq![')'] + seq![';']);
}

/// Compiling equal inputs gives equal output: the whole pipeline is a pure
/// function of the input text, so a second run repeats the first.
pub proof fn lemma_compile_deterministic(a: Seq<char>, b: Seq<char>)
    requires
        a == b,
    ensures
        compile_spec(a) == compile_spec(b),
{
}

/// A sequence of already-rendered statements joined by single newlines.
pub open spec fn join_newlines(xs: Seq<Seq<char>>) -> Seq<char>
    decreases xs.len(),
{
    if xs.len() == 0 {
        Seq::empty()
    } else if xs.len() == 1 {
        xs[0]
    } else {
        xs[0] + seq!['\n'] + join_newlines(xs.subrange(1, xs.len() as int))
    }
}

/// The rendered output of a body is exactly its statements — one per
/// top-level node, in order, each closed by `;` — joined by newlines.
pub proof fn lemma_statements_joined(body: Seq<NodeV>)
    ensures
        render_body(body) == join_newlines(
            Seq::new(body.len(), |i: int| render_node(body[i]) + seq![';']),
        ),
    decreases body.len(),
{
    let stmts = Seq::new(body.len(), |i: int| render_node(body[i]) + seq![';']);
    if body.len() <= 1 {
        assert(render_body(body) =~= join_newlines(stmts));
    } else {
        let rest = body.subrange(1, body.len() as int);
        lemma_statements_joined(rest);
        let rstmts = Seq::new(rest.len(), |i: int| render_node(rest[i]) + seq![';']);
        assert forall|i: int| 0 <= i < rest.len() implies stmts[i + 1] == rstmts[i] by {
            assert(rest[i] == body[i + 1]);
        }
        assert(stmts.subrange(1, stmts.len() as int) =~= rstmts);
        assert(render_body(body) =~= join_newlines(stmts));
    }
}

/// Multiple top-level expressions compile to multiple `;`-closed statements
/// joined by newlines, in source order.
pub proof fn lemma_compile_statements(input: Seq<char>)
    requires
        parse_spec(lex_spec(input)) is Some,
    ensures
        compile_spec(input) == join_newlines(
            Seq::new(
                parse_spec(lex_spec(input)).unwrap().len(),
                |i: int| render_node(parse_spec(lex_spec(input)).unwrap()[i]) + seq![';'],
            ),
        ),
{
    lemma_statements_joined(parse_spec(lex_spec(input)).unwrap());
}

} // verus!
