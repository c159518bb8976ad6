use compiler_lib::{compile, try_compile};

#[test]
fn should_compile_from_str() {
    assert_eq!(compile("(add 2 (subtract 4 6))"), "add(2, subtract(4, 6));");
    assert_eq!(
        compile("(concat \"hello\" \"world\")"),
        "concat(\"hello\", \"world\");"
    );
}

#[test]
fn empty_input_compiles_to_empty_output() {
    assert_eq!(compile(""), "");
    assert_eq!(try_compile(""), Some(String::new()));
}

#[test]
fn compiling_twice_gives_identical_output() {
    let input = "(add 4 (subtract 2 3 (add 4)))\n(concat \"E\" \"duardo\")";
    let first = compile(input);
    let second = compile(input);
    assert_eq!(first, second);
    assert_eq!(first, "add(4, subtract(2, 3, add(4)));\nconcat(\"E\", \"duardo\");");
}

#[test]
fn two_top_level_expressions_give_two_statements() {
    let out = compile("(add 1 2) (add 3 4)");
    assert_eq!(out, "add(1, 2);\nadd(3, 4);");
}

#[test]
fn stray_closing_paren_gives_no_output() {
    assert!(try_compile(")").is_none());
    assert!(try_compile("(add 2))").is_none());
}

#[test]
fn string_argument_is_wrapped_in_double_quotes() {
    assert_eq!(try_compile("(print \"hi\")"), Some("print(\"hi\");".to_string()));
}
