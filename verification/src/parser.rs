use vstd::prelude::*;

use crate::lexer::{Token, TokenV};

verus! {

/// What an AST node stands for: a numeral, a string literal, or a call.
#[derive(Debug, Clone, Eq, PartialEq)]
pub enum AstNodeType {
    NumberLiteral,
    StringLiteral,
    CallExpression,
}

/// One node of the syntax tree. `params` is present exactly for call
/// expressions; its absence is what tells a literal from a zero-argument
/// call.
#[derive(Debug, Eq, PartialEq)]
pub struct AstNode {
    pub kind: AstNodeType,
    pub value: String,
    pub params: Option<Vec<AstNode>>,
}

/// The parse result: one tree per top-level expression, in source order.
#[derive(Debug, Eq, PartialEq)]
pub struct Ast {
    pub body: Vec<AstNode>,
}

/// The mathematical image of an `AstNode`: literals carry their text, a call
/// carries its name and the images of its arguments.
pub enum NodeV {
    NumberLiteral(Seq<char>),
    StringLiteral(Seq<char>),
    CallExpression(Seq<char>, Seq<NodeV>),
}

/// The image of one node: literals keep their text, a call keeps its name
/// and the images of its arguments, in order.
pub open spec fn node_view(n: AstNode) -> NodeV
    decreases n, 1int,
    via node_view_decreases
{
    match n.kind {
        AstNodeType::NumberLiteral => NodeV::NumberLiteral(n.value@),
        AstNodeType::StringLiteral => NodeV::StringLiteral(n.value@),
        AstNodeType::CallExpression => NodeV::CallExpression(
            n.value@,
            if n.params is Some {
                nodes_view(n.params.unwrap()@)
            } else {
                Seq::empty()
            },
        ),
    }
}

/// The images of a node sequence, in order.
pub open spec fn nodes_view(v: Seq<AstNode>) -> Seq<NodeV>
    decreases v, 0int,
{
    if v.len() == 0 {
        Seq::empty()
    } else {
        seq![node_view(v[0])] + nodes_view(v.subrange(1, v.len() as int))
    }
}

#[via_fn]
proof fn node_view_decreases(n: AstNode) {
    match n.kind {
        AstNodeType::CallExpression => {
            if n.params is Some {
                let ps = n.params.unwrap();
                assert(decreases_to!(n => n.params));
                assert(decreases_to!(n.params => n.params.unwrap()));
                assert(decreases_to!(ps => ps@));
            }
        },
        _ => {},
    }
}

impl DeepView for AstNode {
    type V = NodeV;

    open spec fn deep_view(&self) -> NodeV {
        node_view(*self)
    }
}

/// The recursive image of a node list agrees with the element-by-element
/// deep view of a vector holding it.
pub proof fn lemma_nodes_view_is_deep_view(s: Seq<AstNode>)
    ensures
        nodes_view(s) == Seq::new(s.len(), |i: int| node_view(s[i])),
    decreases s.len(),
{
    if s.len() > 0 {
        let rest = s.subrange(1, s.len() as int);
        lemma_nodes_view_is_deep_view(rest);
        assert forall|i: int| 0 <= i < s.len() implies nodes_view(s)[i] == node_view(s[i]) by {
            if i > 0 {
                assert(rest[i - 1] == s[i]);
            }
        }
        assert(nodes_view(s) =~= Seq::new(s.len(), |i: int| node_view(s[i])));
    } else {
        assert(nodes_view(s) =~= Seq::new(s.len(), |i: int| node_view(s[i])));
    }
}

impl AstNode {
    /// The structural invariant the parser establishes: every call node has
    /// `params` set, every literal node has it unset.
    pub open spec fn wf(&self) -> bool
        decreases *self,
    {
        match self.kind {
            AstNodeType::CallExpression => match self.params {
                Option::Some(ps) => forall|i: int| 0 <= i < ps@.len() ==> ps@[i].wf(),
                Option::None => false,
            },
            _ => self.params is None,
        }
    }
}

impl DeepView for Ast {
    type V = Seq<NodeV>;

    open spec fn deep_view(&self) -> Seq<NodeV> {
        self.body.deep_view()
    }
}

impl Ast {
    pub open spec fn wf(&self) -> bool {
        forall|i: int| 0 <= i < self.body@.len() ==> self.body@[i].wf()
    }
}

/// One step of recursive descent at token position `i`: the expression
/// starting there and the position after it, or nothing where the scan is
/// stuck (a stray token at expression start, or input ending inside a
/// call), which `parse` treats as fatal.
pub open spec fn walk_spec(ts: Seq<TokenV>, i: int) -> Option<(NodeV, int)>
    decreases ts.len() - i, 0int,
{
    if i < 0 || i >= ts.len() {
        None
    } else {
        match ts[i] {
            TokenV::Paren(p) => {
                if p == '(' {
                    if i + 1 >= ts.len() {
                        None
                    } else {
                        let name = match ts[i + 1] {
                            TokenV::Name(v) => v,
                            _ => Seq::empty(),
                        };
                        match walk_params(ts, i + 2) {
                            Option::Some((ps, j)) => Some((NodeV::CallExpression(name, ps), j)),
                            Option::None => None,
                        }
                    }
                } else {
                    None
                }
            },
            TokenV::Text(v) => Some((NodeV::StringLiteral(v), i + 1)),
            TokenV::Number(v) => Some((NodeV::NumberLiteral(v), i + 1)),
            TokenV::Name(_) => None,
        }
    }
}

/// The arguments of a call from position `i` up to its closing parenthesis,
/// and the position after that parenthesis.
pub open spec fn walk_params(ts: Seq<TokenV>, i: int) -> Option<(Seq<NodeV>, int)>
    decreases ts.len() - i, 1int,
{
    if i < 0 || i >= ts.len() {
        None
    } else if ts[i] == TokenV::Paren(')') {
        Some((Seq::empty(), i + 1))
    } else {
        match walk_spec(ts, i) {
            Option::None => None,
            Option::Some((n, j)) => {
                // clamping keeps the recursion well-founded; a successful
                // step in fact always lands inside (i, len], so the clamp
                // never changes j
                let j2 = if j <= i {
                    i + 1
                } else if j > ts.len() {
                    ts.len() as int
                } else {
                    j
                };
                match walk_params(ts, j2) {
                    Option::None => None,
                    Option::Some((ps, k)) => Some((seq![n] + ps, k)),
                }
            },
        }
    }
}

/// The top-level loop: expressions parsed one after another until the tokens
/// are exhausted.
pub open spec fn parse_body(ts: Seq<TokenV>, i: int) -> Option<Seq<NodeV>>
    decreases ts.len() - i, 2int,
{
    if i < 0 {
        None
    } else if i >= ts.len() {
        Some(Seq::empty())
    } else {
        match walk_spec(ts, i) {
            Option::None => None,
            Option::Some((n, j)) => {
                let j2 = if j <= i {
                    i + 1
                } else if j > ts.len() {
                    ts.len() as int
                } else {
                    j
                };
                match parse_body(ts, j2) {
                    Option::None => None,
                    Option::Some(b) => Some(seq![n] + b),
                }
            },
        }
    }
}

/// The whole token sequence parsed from the start.
pub open spec fn parse_spec(ts: Seq<TokenV>) -> Option<Seq<NodeV>> {
    parse_body(ts, 0)
}

/// A successful parse step always moves forward and never past the end.
proof fn lemma_walk_progress(ts: Seq<TokenV>, i: int)
    ensures
        walk_spec(ts, i) is Some ==> i < walk_spec(ts, i).unwrap().1 <= ts.len(),
        walk_params(ts, i) is Some ==> i < walk_params(ts, i).unwrap().1 <= ts.len(),
    decreases ts.len() - i, 2int,
{
    if 0 <= i < ts.len() {
        match ts[i] {
            TokenV::Paren(p) => {
                if p == '(' && i + 1 < ts.len() {
                    lemma_walk_progress(ts, i + 2);
                }
            },
            _ => {},
        }
        if ts[i] != TokenV::Paren(')') && walk_spec(ts, i) is Some {
            let (n, j) = walk_spec(ts, i).unwrap();
            let j2 = if j <= i {
                i + 1
            } else if j > ts.len() {
                ts.len() as int
            } else {
                j
            };
            lemma_walk_progress(ts, j2);
        }
    }
}

/// Consumes a token sequence left to right, building the syntax tree.
pub struct Parser {
    current: usize,
    tokens: Vec<Token>,
}

impl Parser {
    /// The token images this parser reads.
    pub closed spec fn toks(&self) -> Seq<TokenV> {
        self.tokens.deep_view()
    }

    /// The cursor: how many tokens are already consumed.
    pub closed spec fn cur(&self) -> int {
        self.current as int
    }

    pub open spec fn wf(&self) -> bool {
        0 <= self.cur() <= self.toks().len()
    }

    pub fn new(tokens: Vec<Token>) -> (r: Self)
        ensures
            r.toks() == tokens.deep_view(),
            r.cur() == 0,
            r.wf(),
    {
        Self { current: 0, tokens }
    }

    /// The token under the cursor.
    pub fn current_token(&self) -> (r: &Token)
        requires
            self.cur() < self.toks().len(),
        ensures
            r.deep_view() == self.toks()[self.cur()],
    {
        &self.tokens[self.current]
    }

    /// Advances the cursor one token. The cursor may move past the end;
    /// only the machine bound on the count is required.
    pub fn next(&mut self)
        requires
            old(self).cur() < usize::MAX,
        ensures
            final(self).toks() == old(self).toks(),
            final(self).cur() == old(self).cur() + 1,
    {
        self.current += 1;
    }

    /// One recursive-descent step: the expression at the cursor, or `None`
    /// exactly where the scan is stuck and `parse` would fail fatally.
    fn try_walk(&mut self) -> (r: Option<AstNode>)
        requires
            old(self).wf(),
        ensures
            final(self).toks() == old(self).toks(),
            final(self).wf(),
            match walk_spec(old(self).toks(), old(self).cur()) {
                Option::Some((nv, j)) => {
                    &&& r is Some
                    &&& r.unwrap().deep_view() == nv
                    &&& r.unwrap().wf()
                    &&& final(self).cur() == j
                },
                Option::None => r is None,
            },
        decreases old(self).toks().len() - old(self).cur(),
    {
        let ghost t = self.toks();
        let ghost i0 = self.cur();
        if self.current >= self.tokens.len() {
            return None;
        }
        match self.current_token() {
            Token::Paren(p) if *p == '(' => {
                self.next();
                let mut name = String::new();
                if self.current >= self.tokens.len() {
                    return None;
                }
                if let Token::Name(v) = self.current_token() {
                    name = v.clone();
                }
                proof {
                    assert(name@ == (match t[i0 + 1] {
                        TokenV::Name(v) => v,
                        _ => Seq::<char>::empty(),
                    }));
                }
                self.next();
                let ghost pstart = self.cur();
                assert(pstart == i0 + 2);
                let mut params: Vec<AstNode> = Vec::new();
                loop
                    invariant
                        t == old(self).toks(),
                        i0 == old(self).cur(),
                        pstart == i0 + 2,
                        0 <= i0,
                        i0 + 1 < t.len(),
                        t[i0] == TokenV::Paren('('),
                        name@ == (match t[i0 + 1] {
                            TokenV::Name(v) => v,
                            _ => Seq::<char>::empty(),
                        }),
                        self.toks() == t,
                        self.wf(),
                        i0 + 2 <= self.cur(),
                        (walk_params(t, pstart) is Some <==> walk_params(t, self.cur()) is Some),
                        walk_params(t, pstart) is Some ==> {
                            &&& walk_params(t, pstart).unwrap().0 == params.deep_view()
                                + walk_params(t, self.cur()).unwrap().0
                            &&& walk_params(t, pstart).unwrap().1 == walk_params(
                                t,
                                self.cur(),
                            ).unwrap().1
                        },
                        forall|k: int| 0 <= k < params@.len() ==> params@[k].wf(),
                    ensures
                        self.toks() == t,
                        self.wf(),
                        self.cur() < t.len(),
                        t[self.cur()] == TokenV::Paren(')'),
                        walk_params(t, pstart) is Some,
                        walk_params(t, pstart).unwrap().0 == params.deep_view(),
                        walk_params(t, pstart).unwrap().1 == self.cur() + 1,
                        forall|k: int| 0 <= k < params@.len() ==> params@[k].wf(),
                    decreases t.len() - self.cur(),
                {
                    if self.current >= self.tokens.len() {
                        assert(walk_params(t, self.cur()) is None);
                        return None;
                    }
                    if matches!(self.current_token(), Token::Paren(')')) {
                        proof {
                            let c = self.cur();
                            assert(t[c] == TokenV::Paren(')'));
                            assert(walk_params(t, c) == Some((Seq::<NodeV>::empty(), c + 1)));
                            assert(params.deep_view() + Seq::<NodeV>::empty() =~= params.deep_view());
                        }
                        break;
                    }
                    let ghost c = self.cur();
                    proof {
                        assert(t[c] != TokenV::Paren(')'));
                        lemma_walk_progress(t, c);
                    }
                    let ghost prev = params;
                    match self.try_walk() {
                        Option::None => {
                            assert(walk_params(t, c) is None);
                            return None;
                        },
                        Option::Some(node) => {
                            params.push(node);
                            proof {
                                let (nv, j) = walk_spec(t, c).unwrap();
                                assert(self.cur() == j);
                                assert(params.deep_view() =~= prev.deep_view().push(nv));
                                if walk_params(t, j) is Some {
                                    assert(prev.deep_view().push(nv) + walk_params(
                                        t,
                                        j,
                                    ).unwrap().0 =~= prev.deep_view() + (seq![nv] + walk_params(
                                        t,
                                        j,
                                    ).unwrap().0));
                                }
                            }
                        },
                    }
                }
                self.next();
                let node = AstNode {
                    kind: AstNodeType::CallExpression,
                    value: name,
                    params: Some(params),
                };
                proof {
                    lemma_nodes_view_is_deep_view(params@);
                    assert(params.deep_view() =~= nodes_view(params@));
                    let (nv, j) = walk_spec(t, i0).unwrap();
                    assert(node.deep_view() == nv);
                    assert(node.wf());
                }
                Some(node)
            },
            Token::Text(v) => {
                let node = AstNode {
                    kind: AstNodeType::StringLiteral,
                    value: v.clone(),
                    params: None,
                };
                self.next();
                Some(node)
            },
            Token::Number(v) => {
                let node = AstNode {
                    kind: AstNodeType::NumberLiteral,
                    value: v.clone(),
                    params: None,
                };
                self.next();
                Some(node)
            },
            _ => None,
        }
    }

    /// Parses every top-level expression, or `None` exactly where `parse`
    /// would fail fatally.
    pub fn try_parse(&mut self) -> (r: Option<Ast>)
        requires
            old(self).wf(),
        ensures
            final(self).toks() == old(self).toks(),
            final(self).wf(),
            match parse_body(old(self).toks(), old(self).cur()) {
                Option::Some(b) => {
                    &&& r is Some
                    &&& r.unwrap().deep_view() == b
                    &&& r.unwrap().wf()
                    &&& final(self).cur() == final(self).toks().len()
                },
                Option::None => r is None,
            },
    {
        let ghost t = self.toks();
        let ghost i0 = self.cur();
        let mut body: Vec<AstNode> = Vec::new();
        while self.current < self.tokens.len()
            invariant
                t == old(self).toks(),
                i0 == old(self).cur(),
                0 <= i0,
                self.toks() == t,
                self.wf(),
                i0 <= self.cur(),
                (parse_body(t, i0) is Some <==> parse_body(t, self.cur()) is Some),
                parse_body(t, i0) is Some ==> parse_body(t, i0).unwrap() == body.deep_view()
                    + parse_body(t, self.cur()).unwrap(),
                forall|k: int| 0 <= k < body@.len() ==> body@[k].wf(),
            decreases t.len() - self.cur(),
        {
            let ghost c = self.cur();
            proof {
                lemma_walk_progress(t, c);
            }
            let ghost prev = body;
            match self.try_walk() {
                Option::None => {
                    assert(parse_body(t, c) is None);
                    return None;
                },
                Option::Some(node) => {
                    body.push(node);
                    proof {
                        let (nv, j) = walk_spec(t, c).unwrap();
                        assert(self.cur() == j);
                        assert(body.deep_view() =~= prev.deep_view().push(nv));
                        if parse_body(t, j) is Some {
                            assert(prev.deep_view().push(nv) + parse_body(t, j).unwrap()
                                =~= prev.deep_view() + (seq![nv] + parse_body(t, j).unwrap()));
                        }
                    }
                },
            }
        }
        proof {
            assert(self.cur() == t.len());
            assert(parse_body(t, self.cur()) == Some(Seq::<NodeV>::empty()));
            if parse_body(t, i0) is Some {
                assert(body.deep_view() + Seq::<NodeV>::empty() =~= body.deep_view());
            }
        }
        Some(Ast { body })
    }

    /// Parses every top-level expression. The caller owes a token sequence
    /// on which the scan does not get stuck; on any other this function
    /// would abort rather than return.
    pub fn parse(&mut self) -> (r: Ast)
        requires
            old(self).wf(),
            parse_body(old(self).toks(), old(self).cur()) is Some,
        ensures
            r.deep_view() == parse_body(old(self).toks(), old(self).cur()).unwrap(),
            r.wf(),
            final(self).toks() == old(self).toks(),
            final(self).cur() == final(self).toks().len(),
            final(self).wf(),
    {
        let r = self.try_parse();
        r.unwrap()
    }
}

} // verus!
