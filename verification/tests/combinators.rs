use calc::combinators::ParseProgress;
use calc::combinators::assignment;
use calc::combinators::identifier;
use calc::combinators::next_token;
use calc::combinators::number;
use calc::lexer::Operator;
use calc::lexer::Token;
use calc::num::Num;

#[test]
fn test_number() {
    assert_eq!(ParseProgress::none(""), number(""));
    assert_eq!(ParseProgress::none("tail"), number("tail"));
    assert_eq!(ParseProgress::some("", Num { bits: 10.0f32.to_bits() }), number("10"));
    assert_eq!(ParseProgress::some("", Num { bits: 10.4f32.to_bits() }), number("10.4"));
    assert_eq!(ParseProgress::some("tail", Num { bits: 10.4f32.to_bits() }), number("10.4tail"));
    number("10.4.5").unwrap_err();
}

#[test]
fn test_identifier() {
    assert_eq!(ParseProgress::none(""), identifier(""));
    assert_eq!(ParseProgress::none("10"), identifier("10"));
    assert_eq!(ParseProgress::some("", "a"), identifier("a"));
    assert_eq!(ParseProgress::some("", "ab"), identifier("ab"));
    assert_eq!(ParseProgress::some("", "_ab"), identifier("_ab"));
    assert_eq!(ParseProgress::some(".", "_ab"), identifier("_ab."));
    assert_eq!(ParseProgress::some("", "__"), identifier("__"));
    assert_eq!(ParseProgress::some("", "_1"), identifier("_1"));
}

#[test]
fn test_assignment() {
    assert_eq!(ParseProgress::none(""), assignment(""));
    assert_eq!(ParseProgress::none("x"), assignment("x"));
    assert_eq!(ParseProgress::some("", "x"), assignment("x ="));
    assert_eq!(ParseProgress::none("x =>"), assignment("x =>"));
}

#[test]
fn test_next_token() {
    assert_eq!(ParseProgress::none(""), next_token(""));
    assert_eq!(ParseProgress::some("", Token::Operator(Operator::Add)), next_token("+"));
    assert_eq!(ParseProgress::some("", Token::Operator(Operator::Sub)), next_token("-"));
    assert_eq!(ParseProgress::some("", Token::Operator(Operator::Mul)), next_token("*"));
    assert_eq!(ParseProgress::some("", Token::Operator(Operator::Div)), next_token("/"));
    assert_eq!(ParseProgress::some("", Token::Operator(Operator::Mod)), next_token("%"));
    assert_eq!(ParseProgress::some("", Token::LBracket), next_token("("));
    assert_eq!(ParseProgress::some("", Token::RBracket), next_token(")"));
    assert_eq!(ParseProgress::some("", Token::Assign("x".to_owned())), next_token("x ="));
    assert_eq!(ParseProgress::some("", Token::Func), next_token("=>"));
    assert_eq!(ParseProgress::some("x", Token::Operator(Operator::Mod)), next_token("%x"));
    assert_eq!(ParseProgress::some(" =>", Token::Id("x".to_owned())), next_token("x =>"));

    next_token("10.0.4").unwrap_err();
    next_token("=").unwrap_err();
}
