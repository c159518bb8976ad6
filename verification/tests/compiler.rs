use compiler_lib::{Compiler, Parser, Tokenizer};

fn get_compiled_code_from(input: &str) -> String {
    let tokens = Tokenizer::new(input).get_tokens();
    let ast = Parser::new(tokens).parse();
    let code = Compiler::new(ast).compile();
    code
}

#[test]
pub fn should_compile_ast_int_string() {
    assert_eq!(
        get_compiled_code_from(r#"(add 2 (subtract 4 6))"#),
        "add(2, subtract(4, 6));"
    );
    assert_eq!(
        get_compiled_code_from(
            r#"
                (add 4 (subtract 2 3 (add 4)))
                (concat "E" "duardo")
            "#
        ),
        "add(4, subtract(2, 3, add(4)));\nconcat(\"E\", \"duardo\");"
    );
    assert_eq!(get_compiled_code_from(r#"(add 2)"#), "add(2);");
}

#[test]
fn zero_argument_call_renders_empty_parentheses() {
    // a space after the name keeps `)` out of the name token
    assert_eq!(get_compiled_code_from("(f )"), "f();");
}

#[test]
fn number_separators_pass_through_unchanged() {
    assert_eq!(get_compiled_code_from("(add 1.5 1,000)"), "add(1.5, 1,000);");
}
