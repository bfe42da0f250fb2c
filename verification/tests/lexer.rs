use calc::CalcError;
use calc::lexer::Operator;
use calc::lexer::Token;
use calc::lexer::tokenize;
use calc::num::Num;

#[test]
fn empty() {
    assert_eq!(Ok(Vec::new()), tokenize(""));
}

#[test]
fn all_tokens() {
    let src = "x 10.3 + - * / % () x = =>";
    let expected = vec![
        Token::Id("x".to_owned()),
        Token::Number(Num { bits: 10.3f32.to_bits() }),
        Token::Operator(Operator::Add),
        Token::Operator(Operator::Sub),
        Token::Operator(Operator::Mul),
        Token::Operator(Operator::Div),
        Token::Operator(Operator::Mod),
        Token::LBracket,
        Token::RBracket,
        Token::Assign("x".to_owned()),
        Token::Func,
    ];

    assert_eq!(Ok(expected), tokenize(src));
}

#[test]
fn invalid() {
    tokenize("^").unwrap_err();
    assert_eq!(Err(CalcError::InvalidToken), tokenize("^"));
}

#[test]
fn func() {
    let src = "add x y => x + y";
    let expected = vec![
        Token::Id("add".to_owned()),
        Token::Id("x".to_owned()),
        Token::Id("y".to_owned()),
        Token::Func,
        Token::Id("x".to_owned()),
        Token::Operator(Operator::Add),
        Token::Id("y".to_owned()),
    ];

    assert_eq!(Ok(expected), tokenize(src));
}

#[test]
fn stops_at_first_error() {
    assert_eq!(Err(CalcError::MultipleDots), tokenize("1 + 10.0.4 + 2"));
}

#[test]
fn lone_dot_is_invalid() {
    assert_eq!(Err(CalcError::InvalidNumber), tokenize("."));
}

#[test]
fn operator_priority() {
    assert_eq!(1, Operator::Add.priority());
    assert_eq!(1, Operator::Sub.priority());
    assert_eq!(2, Operator::Mul.priority());
    assert_eq!(2, Operator::Div.priority());
    assert_eq!(2, Operator::Mod.priority());
}

#[test]
fn operator_eval() {
    let n = |x: f32| Num { bits: x.to_bits() };
    assert_eq!(Some(n(12.0)), Operator::Add.eval(n(10.0), n(2.0)));
    assert_eq!(Some(n(8.0)), Operator::Sub.eval(n(10.0), n(2.0)));
    assert_eq!(Some(n(20.0)), Operator::Mul.eval(n(10.0), n(2.0)));
    assert_eq!(Some(n(5.0)), Operator::Div.eval(n(10.0), n(2.0)));
    assert_eq!(Some(n(1.0)), Operator::Mod.eval(n(11.0), n(2.0)));
    // Mod truncates its operands toward zero before taking the remainder.
    assert_eq!(Some(n(1.0)), Operator::Mod.eval(n(11.9), n(2.8)));
    assert_eq!(Some(n(-1.0)), Operator::Mod.eval(n(-11.0), n(2.0)));
    assert_eq!(Some(n(1.0)), Operator::Mod.eval(n(11.0), n(-2.0)));
    // A divisor that truncates to zero yields no value.
    assert_eq!(None, Operator::Mod.eval(n(11.0), n(0.9)));
}
