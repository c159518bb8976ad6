use compiler_lib::{Ast, AstNode, AstNodeType, Parser, Token, Tokenizer};

#[test]
fn should_turn_tokens_into_ast() {
    let tokens = Tokenizer::new(r#"(add 2 (subtract 4 6))"#).get_tokens();

    assert_eq!(
        Parser::new(tokens).parse(),
        Ast {
            body: vec![AstNode {
                kind: AstNodeType::CallExpression,
                value: "add".to_string(),
                params: Some(vec![
                    AstNode {
                        kind: AstNodeType::NumberLiteral,
                        value: "2".to_string(),
                        params: None
                    },
                    AstNode {
                        kind: AstNodeType::CallExpression,
                        value: "subtract".to_string(),
                        params: Some(vec![
                            AstNode {
                                kind: AstNodeType::NumberLiteral,
                                value: "4".to_string(),
                                params: None
                            },
                            AstNode {
                                kind: AstNodeType::NumberLiteral,
                                value: "6".to_string(),
                                params: None
                            }
                        ])
                    }
                ])
            }]
        }
    )
}

#[test]
fn should_turn_multiline_into_multi_ast_bodies() {
    let tokens = Tokenizer::new(
        r#"
            (add 2 (subtract 4 6))
            (concat "eduardo" "stuart")
        "#,
    )
    .get_tokens();

    let first = AstNode {
        kind: AstNodeType::CallExpression,
        value: "add".to_string(),
        params: Some(vec![
            AstNode {
                kind: AstNodeType::NumberLiteral,
                value: "2".to_string(),
                params: None,
            },
            AstNode {
                kind: AstNodeType::CallExpression,
                value: "subtract".to_string(),
                params: Some(vec![
                    AstNode {
                        kind: AstNodeType::NumberLiteral,
                        value: "4".to_string(),
                        params: None,
                    },
                    AstNode {
                        kind: AstNodeType::NumberLiteral,
                        value: "6".to_string(),
                        params: None,
                    },
                ]),
            },
        ]),
    };

    let second = AstNode {
        kind: AstNodeType::CallExpression,
        value: "concat".to_string(),
        params: Some(vec![
            AstNode {
                kind: AstNodeType::StringLiteral,
                value: "eduardo".to_string(),
                params: None,
            },
            AstNode {
                kind: AstNodeType::StringLiteral,
                value: "stuart".to_string(),
                params: None,
            },
        ]),
    };

    assert_eq!(
        Parser::new(tokens).parse(),
        Ast {
            body: vec![first, second]
        }
    )
}

#[test]
fn empty_token_sequence_gives_empty_body() {
    let tokens = Tokenizer::new("").get_tokens();
    assert_eq!(Parser::new(tokens).parse(), Ast { body: vec![] });
}

#[test]
fn cursor_moves_one_token_at_a_time() {
    let tokens = Tokenizer::new("(add 2)").get_tokens();
    let mut p = Parser::new(tokens);
    assert_eq!(*p.current_token(), Token::Paren('('));
    p.next();
    assert_eq!(*p.current_token(), Token::Name("add".to_string()));
}

#[test]
fn stray_closing_paren_is_a_fatal_parse_failure() {
    let tokens = Tokenizer::new(") (add 2)").get_tokens();
    assert!(Parser::new(tokens).try_parse().is_none());
}

#[test]
fn input_ending_inside_a_call_is_a_fatal_parse_failure() {
    let tokens = Tokenizer::new("(add 2").get_tokens();
    assert!(Parser::new(tokens).try_parse().is_none());
}
