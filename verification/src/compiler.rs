use vstd::prelude::*;

use crate::parser::{lemma_nodes_view_is_deep_view, nodes_view, Ast, AstNode, AstNodeType, NodeV};
use vstd::string::StringExecFns;

verus! {

/// The target text of one node: a numeral as it stands, a string literal
/// wrapped in double quotes, a call as `name(arg, arg)`.
pub open spec fn render_node(n: NodeV) -> Seq<char>
    decreases n, 1int,
    via render_node_decreases
{
    match n {
        NodeV::NumberLiteral(v) => v,
        NodeV::StringLiteral(v) => seq!['"'] + v + seq!['"'],
        NodeV::CallExpression(name, args) => name + seq!['('] + render_params(args) + seq![')'],
    }
}

/// The arguments of a call, each rendered, joined by a comma and a space.
pub open spec fn render_params(ps: Seq<NodeV>) -> Seq<char>
    decreases ps, 0int,
{
    if ps.len() == 0 {
        Seq::empty()
    } else if ps.len() == 1 {
        render_node(ps[0])
    } else {
        render_node(ps[0]) + seq![',', ' '] + render_params(ps.subrange(1, ps.len() as int))
    }
}

#[via_fn]
proof fn render_node_decreases(n: NodeV) {
    match n {
        NodeV::CallExpression(name, args) => {
            assert(decreases_to!(n => args));
        },
        _ => {},
    }
}

/// The whole output: one statement per top-level node, each closed by `;`,
/// joined by single newlines, with no trailing newline.
pub open spec fn render_body(body: Seq<NodeV>) -> Seq<char>
    decreases body.len(),
{
    if body.len() == 0 {
        Seq::empty()
    } else if body.len() == 1 {
        render_node(body[0]) + seq![';']
    } else {
        render_node(body[0]) + seq![';', '\n'] + render_body(body.subrange(1, body.len() as int))
    }
}

/// Rendering one more argument appends a comma-space separator before it,
/// except in front of the first.
proof fn lemma_render_params_push(ps: Seq<NodeV>, x: NodeV)
    ensures
        render_params(ps.push(x)) == if ps.len() == 0 {
            render_node(x)
        } else {
            render_params(ps) + seq![',', ' '] + render_node(x)
        },
    decreases ps.len(),
{
    let full = ps.push(x);
    if ps.len() == 0 {
        assert(full.len() == 1);
        assert(full[0] == x);
    } else {
        let rest = ps.subrange(1, ps.len() as int);
        lemma_render_params_push(rest, x);
        assert(full.subrange(1, full.len() as int) =~= rest.push(x));
        assert(full[0] == ps[0]);
        assert(render_params(full) =~= render_params(ps) + seq![',', ' '] + render_node(x));
    }
}

/// Rendering one more statement appends a newline before it, except in front
/// of the first; the statement keeps its `;`.
proof fn lemma_render_body_push(body: Seq<NodeV>, x: NodeV)
    ensures
        render_body(body.push(x)) == if body.len() == 0 {
            render_node(x) + seq![';']
        } else {
            render_body(body) + seq!['\n'] + render_node(x) + seq![';']
        },
    decreases body.len(),
{
    let full = body.push(x);
    if body.len() == 0 {
        assert(full.len() == 1);
        assert(full[0] == x);
        assert(render_body(full) =~= render_node(x) + seq![';']);
    } else {
        let rest = body.subrange(1, body.len() as int);
        lemma_render_body_push(rest, x);
        assert(full.subrange(1, full.len() as int) =~= rest.push(x));
        assert(full[0] == body[0]);
        assert(render_body(full) =~= render_body(body) + seq!['\n'] + render_node(x) + seq![';']);
    }
}

/// Walks a syntax tree depth-first and renders the target text.
#[derive(Debug)]
pub struct Compiler {
    ast: Ast,
}

impl Compiler {
    /// The images of the top-level nodes this compiler renders.
    pub closed spec fn nodes(&self) -> Seq<NodeV> {
        self.ast.deep_view()
    }

    pub closed spec fn wf(&self) -> bool {
        self.ast.wf()
    }

    pub fn new(ast: Ast) -> (r: Self)
        ensures
            r.nodes() == ast.deep_view(),
            ast.wf() ==> r.wf(),
    {
        Self { ast }
    }

    /// Renders every top-level node, `;`-closed, newline-joined.
    pub fn compile(&mut self) -> (r: String)
        requires
            old(self).wf(),
        ensures
            *final(self) == *old(self),
            r@ == render_body(old(self).nodes()),
    {
        let mut out = String::new();
        let n = self.ast.body.len();
        let ghost views = self.ast.deep_view();
        let mut i: usize = 0;
        while i < n
            invariant
                self == old(self),
                self.wf(),
                views == self.ast.deep_view(),
                n == self.ast.body@.len(),
                i <= n,
                out@ == render_body(views.take(i as int)),
            decreases n - i,
        {
            if i > 0 {
                out.push('\n');
            }
            let piece = self.generate(&self.ast.body[i]);
            out.append(piece.as_str());
            out.push(';');
            i += 1;
            proof {
                let k = i as int;
                lemma_render_body_push(views.take(k - 1), views[k - 1]);
                assert(views.take(k) =~= views.take(k - 1).push(views[k - 1]));
                assert(out@ =~= render_body(views.take(k)));
            }
        }
        proof {
            assert(views.take(n as int) =~= views);
        }
        out
    }

    /// Renders one node: the raw numeral, the quoted string, or the call
    /// with its rendered arguments.
    fn generate(&self, node: &AstNode) -> (r: String)
        requires
            node.wf(),
        ensures
            r@ == render_node(node.deep_view()),
        decreases *node,
    {
        match node.kind {
            AstNodeType::NumberLiteral => node.value.clone(),
            AstNodeType::StringLiteral => {
                let mut s = String::new();
                s.push('"');
                s.append(node.value.as_str());
                s.push('"');
                proof {
                    assert(s@ =~= seq!['"'] + node.value@ + seq!['"']);
                }
                s
            },
            AstNodeType::CallExpression => {
                let params = node.params.as_ref().unwrap();
                let n = params.len();
                let ghost pview = params.deep_view();
                let mut args = String::new();
                let mut i: usize = 0;
                while i < n
                    invariant
                        node.wf(),
                        node.kind == AstNodeType::CallExpression,
                        node.params == Some(*params),
                        pview == params.deep_view(),
                        n == params@.len(),
                        i <= n,
                        args@ == render_params(pview.take(i as int)),
                    decreases n - i,
                {
                    if i > 0 {
                        args.push(',');
                        args.push(' ');
                    }
                    proof {
                        let ps2 = node.params.unwrap();
                        assert(decreases_to!(*node => node.params));
                        assert(decreases_to!(node.params => node.params.unwrap()));
                        assert(decreases_to!(ps2 => ps2@));
                        assert(decreases_to!(ps2@ => ps2@[i as int]));
                    }
                    let piece = self.generate(&params[i]);
                    args.append(piece.as_str());
                    i += 1;
                    proof {
                        let k = i as int;
                        assert(pview[k - 1] == params@[k - 1].deep_view());
                        lemma_render_params_push(pview.take(k - 1), pview[k - 1]);
                        assert(pview.take(k) =~= pview.take(k - 1).push(pview[k - 1]));
                        assert(args@ =~= render_params(pview.take(k)));
                    }
                }
                let mut s = String::new();
                s.append(node.value.as_str());
                s.push('(');
                s.append(args.as_str());
                s.push(')');
                proof {
                    assert(pview.take(n as int) =~= pview);
                    lemma_nodes_view_is_deep_view(params@);
                    assert(nodes_view(params@) =~= pview);
                    assert(s@ =~= node.value@ + seq!['('] + render_params(pview) + seq![')']);
                    assert(render_node(node.deep_view()) == node.value@ + seq!['(']
                        + render_params(nodes_view(params@)) + seq![')']);
                }
                s
            },
        }
    }
}

} // verus!
