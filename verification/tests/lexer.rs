use compiler_lib::{Token, Tokenizer};

#[test]
fn should_get_list_of_tokens_from_string() {
    assert_eq!(
        Tokenizer::new(r#"(add 2)"#).get_tokens(),
        vec![
            Token::Paren('('),
            Token::Name("add".to_string()),
            Token::Number("2".to_string()),
            Token::Paren(')'),
        ]
    );

    assert_eq!(
        Tokenizer::new(r#"(add 2 (subtract 4 6))"#).get_tokens(),
        vec![
            Token::Paren('('),
            Token::Name("add".to_string()),
            Token::Number("2".to_string()),
            Token::Paren('('),
            Token::Name("subtract".to_string()),
            Token::Number("4".to_string()),
            Token::Number("6".to_string()),
            Token::Paren(')'),
            Token::Paren(')'),
        ]
    );
}

#[test]
fn empty_input_gives_no_tokens() {
    assert_eq!(Tokenizer::new("").get_tokens(), vec![]);
}

#[test]
fn unterminated_string_keeps_partial_text() {
    assert_eq!(
        Tokenizer::new("\"abc").get_tokens(),
        vec![Token::Text("abc".to_string())]
    );
}

#[test]
fn single_quote_closes_a_string() {
    assert_eq!(
        Tokenizer::new("\"ab'c").get_tokens(),
        vec![Token::Text("ab".to_string()), Token::Name("c".to_string())]
    );
}

#[test]
fn string_with_space_stays_one_text_token() {
    assert_eq!(
        Tokenizer::new("\"hello world\"").get_tokens(),
        vec![Token::Text("hello world".to_string())]
    );
}

#[test]
fn numbers_keep_decimal_and_grouping_separators() {
    assert_eq!(
        Tokenizer::new("(add 1.5 1,000)").get_tokens(),
        vec![
            Token::Paren('('),
            Token::Name("add".to_string()),
            Token::Number("1.5".to_string()),
            Token::Number("1,000".to_string()),
            Token::Paren(')'),
        ]
    );
}

#[test]
fn name_swallows_its_terminating_character() {
    // the `)` after `f` ends the name and is consumed with it
    assert_eq!(
        Tokenizer::new("(f)").get_tokens(),
        vec![Token::Paren('('), Token::Name("f".to_string())]
    );
}
