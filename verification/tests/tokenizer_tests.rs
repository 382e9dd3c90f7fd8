use z_lang::{detokenize, tokenize, Token};

#[test]
fn test_basic_detokenization() {
    let input = "int main() { return 0; }";
    let tokens = tokenize(input);
    let output = detokenize(&tokens);
    assert_eq!(output, "int main() { return 0;}");
}

#[test]
fn test_member_access() {
    let tokens = vec![
        Token::Identifier("obj".to_string()),
        Token::Symbol(".".to_string()),
        Token::Identifier("member".to_string()),
    ];
    let output = detokenize(&tokens);
    assert_eq!(output, "obj.member");
}

#[test]
fn test_function_call() {
    let tokens = vec![
        Token::Identifier("func".to_string()),
        Token::Symbol("(".to_string()),
        Token::Identifier("arg".to_string()),
        Token::Symbol(",".to_string()),
        Token::Number("42".to_string()),
        Token::Symbol(")".to_string()),
    ];
    let output = detokenize(&tokens);
    assert_eq!(output, "func(arg, 42)");
}

#[test]
fn test_arithmetic() {
    let tokens = vec![
        Token::Identifier("a".to_string()),
        Token::Symbol("=".to_string()),
        Token::Identifier("b".to_string()),
        Token::Symbol("+".to_string()),
        Token::Number("1".to_string()),
    ];
    let output = detokenize(&tokens);
    assert_eq!(output, "a = b +1");
}

#[test]
fn test_include_directive() {
    let tokens = vec![
        Token::Symbol("#".to_string()),
        Token::Identifier("include".to_string()),
        Token::Symbol("<".to_string()),
        Token::Identifier("stdio".to_string()),
        Token::Symbol(".".to_string()),
        Token::Identifier("h".to_string()),
        Token::Symbol(">".to_string()),
    ];
    let output = detokenize(&tokens);
    assert_eq!(output, "# include <stdio.h>");
}

#[test]
fn test_struct_member_access() {
    let tokens = vec![
        Token::Identifier("self".to_string()),
        Token::Symbol(".".to_string()),
        Token::Identifier("f".to_string()),
        Token::Symbol("=".to_string()),
        Token::Number("1".to_string()),
    ];
    let output = detokenize(&tokens);
    assert_eq!(output, "self.f = 1");
}
